pub mod assoc;
pub mod dispatch;
pub mod handlers;
pub mod png;
pub mod presence;
pub mod protocol;
pub mod random;
pub mod registry;
pub mod roster;
pub mod validate;

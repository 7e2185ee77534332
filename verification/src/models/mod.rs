pub mod block;
pub mod contact;
pub mod debt;
pub mod invite;
pub mod money;
pub mod room;
pub mod session;
pub mod user;

pub use block::Block;
pub use contact::{normalize_phone, Contact};
pub use debt::{Debt, DebtSource, DebtStatus, Installment, Payment};
pub use invite::{Invite, InvitePurpose};
pub use money::{Currency, Money};
pub use room::{Room, RoomItem, RoomStatus};
pub use session::{Session, SessionState};
pub use user::User;

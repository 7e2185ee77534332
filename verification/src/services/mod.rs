pub mod clock;
pub mod installment;
pub mod scheduler;
pub mod splitter;

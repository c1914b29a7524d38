pub mod delayer;

pub use delayer::Delayer;

pub mod responses;
pub mod router;
pub mod request;

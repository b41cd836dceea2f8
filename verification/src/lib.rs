pub mod preferences;
pub mod playerdata;
pub mod history;
pub mod sources;
pub mod modes;
pub mod responses;
pub mod time;
pub mod timing;

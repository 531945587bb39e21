pub mod decimal;
pub mod datetime;
pub mod wallpaper;
pub mod display;
pub mod calc;
pub mod clock;
pub mod calendar;
pub mod apps;
pub mod personal;
pub mod desktop;
pub mod sysabi;

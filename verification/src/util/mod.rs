pub mod port_detector;
pub mod icon_detector;
pub mod resource_monitor;
pub mod notifications;

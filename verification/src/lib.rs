mod outside;
pub mod text;
pub mod findings;
pub mod modules;
pub mod procs;
pub mod net;
pub mod misc;
pub mod integrity;
pub mod report;
pub mod forensics;
pub mod util;

//! Verified core of the edge-toolkit services: the decisions and wire formats behind the module
//! server, agent storage, the websockify relay, the split-learning wire codec and the browser modules'
//! pure helpers. Everything that talks to a socket, a disk or a browser lives in `app/`.

pub mod text;
pub mod relay;
pub mod paths;
pub mod path_order;
pub mod storage;
pub mod modules;
pub mod wire;
pub mod browser;
pub mod pic_viewer;
pub mod tty;
pub mod sensing;

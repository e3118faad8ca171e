//! Sockets under the names of the standard library's.

pub use crate::shim_std_tcp::{
    Incoming, ShimStdTcpListener as TcpListener, ShimStdTcpStream as TcpStream, Shutdown,
};
pub use crate::shim_std_udp::ShimStdUdpSocket as UdpSocket;

//! A flow-preserving packet capture splitter.
//!
//! The library reads a stream of captured Ethernet/IPv4 frames and fans each
//! frame out to exactly one of `N` shards, chosen by a keyed hash of the
//! unordered (source, destination) IPv4 address pair, so that every frame of
//! the same bidirectional flow lands in the same shard.

pub mod classify;
pub mod ether;
pub mod hash;
pub mod ip;
pub mod packet;
pub mod splitter;
pub mod spsc;
pub mod stats;
pub mod status;
pub mod writer;
pub mod util;

pub use classify::shard_index;
pub use ether::read_inner_packet;
pub use hash::hash_u32;
pub use ip::V4Packet;
pub use packet::Packet;
pub use packet::PacketHeader;
pub use packet::timeval;
pub use splitter::split;
pub use spsc::Buffer;
pub use spsc::QUEUE_SIZE;
pub use spsc::Consumer;
pub use spsc::Producer;
pub use spsc::create;
pub use stats::Stats;
pub use status::status_json;
pub use util::ntohs;
pub use util::ntohl;
pub use util::to_str;
pub use writer::WriterAction;
pub use writer::writer_configs;
pub use writer::writer_step;

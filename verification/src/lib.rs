//! Wire-level primitives, packets and connection logic of the Minecraft: Java Edition protocol.
pub mod protocol;
pub mod net;

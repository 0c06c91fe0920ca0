//! Endianness-aware binary encoding and decoding of fixed-width scalar
//! values, together with a byte-buffer view that reads and writes such
//! values at arbitrary offsets inside any byte-addressable storage.

pub mod buffer;
pub mod bytes;
pub mod codec;
pub mod combined_io;
pub mod traits;

pub use buffer::ByteBuf;
pub use buffer::ByteStorage;
pub use buffer::ByteStorageMut;
pub use buffer::StaticByteBuf;
pub use bytes::ReadBytes;
pub use bytes::WriteBytes;
pub use combined_io::Combine;

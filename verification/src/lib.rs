pub mod buffer;
pub mod laws;
pub mod line;
pub mod pair;
pub mod reader;
pub mod source;

pub use buffer::{Buf, BufIds, BufMut, BufState, Bytes, BytesState, IdsState};
pub use line::find_lf;
pub use pair::{BufBuilder, BufPair};
pub use reader::{ReaderState, SharedReader};
pub use source::{LimitReader, SliceSource, Source};

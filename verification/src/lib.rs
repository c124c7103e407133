pub mod block;
pub mod chunk;
pub mod chunk_index;
pub mod chunk_pos;
pub mod debug;
pub mod frame;
pub mod life;
pub mod loaded_chunk;
pub mod query;
pub mod relative_pos;
pub mod sim;
pub mod text;
pub mod unique_descrip;

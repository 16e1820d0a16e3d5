//! A store of short Markdown notes ("memories"), one file per memory.
//!
//! The library holds the store's logic, verified: the identifier policy
//! (`ident`), the record codec that derives titles and snippets (`codec`), and
//! the decisions behind listing, searching and saving (`store`). Reading and
//! writing the files is left to the caller, which hands the library the files
//! it read and writes what the library decided.
pub mod codec;
pub mod ident;
pub mod recency;
pub mod store;
pub mod text;

pub use codec::{ellipsize, extract_snippet, extract_title};
pub use ident::{file_name, generate_timestamp_id, id_from_file_name, slugify, uniquify};
pub use text::is_blank;
pub use store::{
    list_memories, memory_detail, plan_save, resolve_title, search_memories, update_payload,
    MemoryChangedPayload, MemoryDetail, MemoryFile, MemorySearchResult, MemorySummary,
    SaveMemoryPayload,
};

//! A store of prompts (a title and a content under a generated id and a
//! creation time): an in-memory table with the five operations create, list,
//! get, update and delete; the outcome and HTTP status of each operation as
//! a storage layer reports it; and the laws that relate the operations.
pub mod laws;
pub mod outcome;
pub mod prompt;
mod source;
pub mod table;

pub use outcome::{
    deletion_outcome, not_found_text, row_outcome, storage_outcome, success_status, Operation,
    StoreError,
};
pub use prompt::{Prompt, PromptView};
pub use table::{duplicate_id_text, PromptTable};

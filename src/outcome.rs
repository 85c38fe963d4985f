use vstd::prelude::*;

use crate::prompt::Prompt;

verus! {

/// The two ways an operation can fail: the id names no stored prompt, or the
/// storage layer failed, with its own description of the failure.
#[derive(Clone, Debug, PartialEq, Eq)]
pub enum StoreError {
    NotFound,
    Persistence(String),
}

/// The five operations on the prompt table.
#[derive(Clone, Copy, Debug, PartialEq, Eq)]
pub enum Operation {
    Create,
    List,
    Get,
    Update,
    Delete,
}

/// The text sent back when an id names no prompt.
pub open spec fn not_found_spec() -> Seq<char> {
    "Prompt not found"@
}

/// The text sent back when an id names no prompt.
pub fn not_found_text() -> (r: String)
    ensures
        r@ == not_found_spec(),
{
    proof {
        reveal_strlit("Prompt not found");
    }
    String::from_str("Prompt not found")
}

impl StoreError {
    /// The HTTP status that reports this failure.
    pub fn status(&self) -> (r: u16)
        ensures
            r == (match self {
                StoreError::NotFound => 404u16,
                StoreError::Persistence(_) => 500u16,
            }),
    {
        match self {
            StoreError::NotFound => 404,
            StoreError::Persistence(_) => 500,
        }
    }

    /// The body that reports this failure: a fixed text for a missing id, the
    /// storage layer's own description, unchanged, for a storage failure.
    pub fn message(&self) -> (r: String)
        ensures
            r@ == (match self {
                StoreError::NotFound => not_found_spec(),
                StoreError::Persistence(m) => m@,
            }),
    {
        match self {
            StoreError::NotFound => not_found_text(),
            StoreError::Persistence(m) => m.clone(),
        }
    }
}

/// The HTTP status that reports the success of an operation.
pub fn success_status(op: Operation) -> (r: u16)
    ensures
        r == (match op {
            Operation::Create => 201u16,
            Operation::Delete => 204u16,
            _ => 200u16,
        }),
{
    match op {
        Operation::Create => 201,
        Operation::Delete => 204,
        _ => 200,
    }
}

/// The outcome of a statement that returns rows (an insert or a select of
/// every row): a storage failure keeps its description.
pub fn storage_outcome<T>(r: Result<T, String>) -> (o: Result<T, StoreError>)
    ensures
        match r {
            Ok(v) => o == Ok::<T, StoreError>(v),
            Err(m) => o == Err::<T, StoreError>(StoreError::Persistence(m)),
        },
{
    match r {
        Ok(v) => Ok(v),
        Err(m) => Err(StoreError::Persistence(m)),
    }
}

/// The outcome of a statement on one id that returns the row it found (a
/// lookup or an update): no row means the id names no prompt.
pub fn row_outcome(r: Result<Option<Prompt>, String>) -> (o: Result<Prompt, StoreError>)
    ensures
        match r {
            Ok(Some(p)) => o == Ok::<Prompt, StoreError>(p),
            Ok(None) => o == Err::<Prompt, StoreError>(StoreError::NotFound),
            Err(m) => o == Err::<Prompt, StoreError>(StoreError::Persistence(m)),
        },
{
    match r {
        Ok(Some(p)) => Ok(p),
        Ok(None) => Err(StoreError::NotFound),
        Err(m) => Err(StoreError::Persistence(m)),
    }
}

/// The outcome of a delete, from the number of rows it removed: none means
/// the id names no prompt.
pub fn deletion_outcome(r: Result<u64, String>) -> (o: Result<(), StoreError>)
    ensures
        match r {
            Ok(n) => if n == 0 {
                o == Err::<(), StoreError>(StoreError::NotFound)
            } else {
                o == Ok::<(), StoreError>(())
            },
            Err(m) => o == Err::<(), StoreError>(StoreError::Persistence(m)),
        },
{
    match r {
        Ok(n) => if n == 0 {
            Err(StoreError::NotFound)
        } else {
            Ok(())
        },
        Err(m) => Err(StoreError::Persistence(m)),
    }
}

} // verus!

use vstd::prelude::*;

verus! {

/// A stored prompt. The id is a UUID held as its 128-bit big-endian value;
/// `created_at` counts microseconds since the Unix epoch, in UTC.
#[derive(Clone, Debug, PartialEq, Eq)]
pub struct Prompt {
    pub id: u128,
    pub title: String,
    pub content: String,
    pub created_at: i64,
}

/// What a prompt holds, as mathematical values.
pub struct PromptView {
    pub id: u128,
    pub title: Seq<char>,
    pub content: Seq<char>,
    pub created_at: i64,
}

impl View for Prompt {
    type V = PromptView;

    open spec fn view(&self) -> PromptView {
        PromptView {
            id: self.id,
            title: self.title@,
            content: self.content@,
            created_at: self.created_at,
        }
    }
}

impl Prompt {
    /// A copy that holds the same values.
    pub fn duplicate(&self) -> (r: Prompt)
        ensures
            r@ == self@,
    {
        Prompt {
            id: self.id,
            title: self.title.clone(),
            content: self.content.clone(),
            created_at: self.created_at,
        }
    }
}

} // verus!

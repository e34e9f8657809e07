//! The kinds of treatment that a command's output gets.
use vstd::prelude::*;

verus! {

#[derive(Debug, Clone, Copy, PartialEq, Eq, Structural)]
pub enum Category {
    Condense,
    Narrate,
    Passthrough,
    Structured,
    Interactive,
    Dangerous,
}

/// The name of a category.
pub open spec fn category_name(c: Category) -> Seq<char> {
    match c {
        Category::Condense => "condense"@,
        Category::Narrate => "narrate"@,
        Category::Passthrough => "passthrough"@,
        Category::Structured => "structured"@,
        Category::Interactive => "interactive"@,
        Category::Dangerous => "dangerous"@,
    }
}

impl Category {
    pub fn name(&self) -> (r: &'static str)
        ensures
            r@ == category_name(*self),
    {
        match self {
            Category::Condense => "condense",
            Category::Narrate => "narrate",
            Category::Passthrough => "passthrough",
            Category::Structured => "structured",
            Category::Interactive => "interactive",
            Category::Dangerous => "dangerous",
        }
    }
}

impl Default for Category {
    /// What is known of no category is condensed.
    fn default() -> (r: Self)
        ensures
            r == Category::Condense,
    {
        Category::Condense
    }
}

} // verus!

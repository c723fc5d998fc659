use vstd::prelude::*;

verus! {

/// A language as stored: its assigned identifier and its name.
#[derive(Debug, Clone, PartialEq, Eq)]
pub struct Lang {
    pub id: i32,
    pub name: String,
}

/// What a client sends to create a language.
#[derive(Debug, Clone, PartialEq, Eq)]
pub struct AddLang {
    pub name: String,
}

/// What a client sends to rename a language.
#[derive(Debug, Clone, PartialEq, Eq)]
pub struct UpdateLang {
    pub name: String,
}

/// A word as stored: its assigned identifier, its text, its meaning and the
/// identifier of the language that owns it.
#[derive(Debug, Clone, PartialEq, Eq)]
pub struct Word {
    pub id: i32,
    pub name: String,
    pub means: String,
    pub lang_id: i32,
}

/// What a client sends to create a word inside a language.
#[derive(Debug, Clone, PartialEq, Eq)]
pub struct AddWord {
    pub name: String,
    pub means: String,
}

/// What a client sends to replace a word's text and meaning.
#[derive(Debug, Clone, PartialEq, Eq)]
pub struct UpdateWord {
    pub name: String,
    pub means: String,
}

impl Lang {
    /// A field-by-field copy that verified code can reason about.
    pub fn duplicate(&self) -> (r: Lang)
        ensures
            r == *self,
    {
        Lang { id: self.id, name: self.name.clone() }
    }
}

impl Word {
    /// A field-by-field copy that verified code can reason about.
    pub fn duplicate(&self) -> (r: Word)
        ensures
            r == *self,
    {
        Word { id: self.id, name: self.name.clone(), means: self.means.clone(), lang_id: self.lang_id }
    }
}

} // verus!

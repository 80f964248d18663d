//! The cost model that an indexer declares.

use vstd::prelude::*;

verus! {

/// What a cost model record holds, as text.
pub struct RecordView {
    /// The pricing program.
    pub program: Seq<char>,
    /// The variable bindings that go with the program, where the indexer declared any.
    pub variables: Option<Seq<char>>,
}

impl RecordView {
    /// The bindings to compile the program with: the declared ones, or none at all.
    pub open spec fn bindings(self) -> Seq<char> {
        match self.variables {
            Some(declared) => declared,
            None => Seq::empty(),
        }
    }
}

/// The text of an optional string.
pub open spec fn text_of(text: Option<String>) -> Option<Seq<char>> {
    match text {
        Some(t) => Some(t@),
        None => None,
    }
}

/// A pricing program with its optional variable bindings, exactly as an indexer
/// declared them. Nothing here reads the program; a record does not change
/// once it is made.
#[derive(Debug, PartialEq, Eq)]
pub struct CostModelRecord {
    program: String,
    variables: Option<String>,
}

impl View for CostModelRecord {
    type V = RecordView;

    closed spec fn view(&self) -> RecordView {
        RecordView { program: self.program@, variables: text_of(self.variables) }
    }
}

impl CostModelRecord {
    /// A record of `program` and `variables`.
    pub fn new(program: String, variables: Option<String>) -> (record: Self)
        ensures
            record@ == (RecordView { program: program@, variables: text_of(variables) }),
    {
        CostModelRecord { program, variables }
    }

    /// The pricing program.
    pub fn program(&self) -> (program: &str)
        ensures
            program@ == self@.program,
    {
        self.program.as_str()
    }

    /// The declared variable bindings, if any.
    pub fn variables(&self) -> (variables: Option<&str>)
        ensures
            match variables {
                Some(declared) => self@.variables == Some(declared@),
                None => self@.variables is None,
            },
    {
        match &self.variables {
            Some(declared) => Some(declared.as_str()),
            None => None,
        }
    }

    /// The bindings to compile the program with: the declared ones, or the empty text.
    pub fn bindings(&self) -> (bindings: &str)
        ensures
            bindings@ == self@.bindings(),
    {
        match &self.variables {
            Some(declared) => declared.as_str(),
            None => {
                proof {
                    reveal_strlit("");
                }
                assert(""@ =~= Seq::<char>::empty());
                ""
            },
        }
    }

    /// A second record with the same program and bindings.
    pub fn duplicate(&self) -> (copy: Self)
        ensures
            copy@ == self@,
    {
        let variables = match &self.variables {
            Some(declared) => Some(declared.clone()),
            None => None,
        };
        CostModelRecord { program: self.program.clone(), variables }
    }
}

} // verus!

//! The external schema of a node, and what can be wrong with a document.

use crate::json::SyntaxError;
use crate::numeral::{decimal, push_decimal};
use vstd::prelude::*;
use vstd::string::StringExecFns;

verus! {

/// The members of a node's object that the decoder reads.
#[derive(Clone, Copy, Debug, PartialEq, Eq, Structural)]
pub enum Field {
    Name,
    LinesCovered,
    LinesMissed,
    LinesTotal,
    CoveragePercent,
    Children,
}

/// What is wrong with a node of a document.
#[derive(Clone, Copy, Debug, PartialEq, Eq, Structural)]
pub enum Problem {
    /// The node is no object.
    NotAnObject,
    /// The node has no such member, and must have one.
    Missing(Field),
    /// The member is of the wrong JSON type: a name that is no string, a
    /// count that is no integer from zero to `usize::MAX`, a percentage that
    /// is no number, children that are no object.
    WrongType(Field),
}

/// The key of a member of the external schema.
pub open spec fn key_of(field: Field) -> Seq<char> {
    match field {
        Field::Name => "name"@,
        Field::LinesCovered => "linesCovered"@,
        Field::LinesMissed => "linesMissed"@,
        Field::LinesTotal => "linesTotal"@,
        Field::CoveragePercent => "coveragePercent"@,
        Field::Children => "children"@,
    }
}

/// A node that does not follow the schema, and where it is.
pub struct SchemaErrorView {
    /// The keys that lead from the root to the node, outermost first.
    pub path: Seq<Seq<char>>,
    pub problem: Problem,
}

impl SchemaErrorView {
    /// The same error, seen from the parent of the node that `key` names.
    pub open spec fn within(self, key: Seq<char>) -> SchemaErrorView {
        SchemaErrorView { path: seq![key] + self.path, problem: self.problem }
    }
}

/// What is wrong, in words.
pub open spec fn problem_text(problem: Problem) -> Seq<char> {
    match problem {
        Problem::NotAnObject => "expected an object"@,
        Problem::Missing(field) => "missing field `"@ + key_of(field) + "`"@,
        Problem::WrongType(field) => "invalid type for field `"@ + key_of(field) + "`"@,
    }
}

/// The keys of a path, a slash before each.
pub open spec fn path_text(path: Seq<Seq<char>>) -> Seq<char>
    decreases path.len(),
{
    if path.len() == 0 {
        Seq::empty()
    } else {
        path_text(path.drop_last()) + "/"@ + path.last()
    }
}

/// A schema error in words: what is wrong, and the path of the node, which
/// for the root is a single slash.
pub open spec fn schema_message(error: SchemaErrorView) -> Seq<char> {
    problem_text(error.problem) + " at "@ + if error.path.len() == 0 {
        "/"@
    } else {
        path_text(error.path)
    }
}

/// A syntax error in words.
pub open spec fn malformed_message(line: nat, column: nat) -> Seq<char> {
    "malformed document at line "@ + decimal(line) + " column "@ + decimal(column)
}

/// A node that does not follow the schema, and where it is.
#[derive(Debug, PartialEq, Eq)]
pub struct SchemaError {
    /// The keys that lead from the root to the node, outermost first.
    pub path: Vec<String>,
    pub problem: Problem,
}

impl View for SchemaError {
    type V = SchemaErrorView;

    open spec fn view(&self) -> SchemaErrorView {
        SchemaErrorView { path: self.path@.map_values(|key: String| key@), problem: self.problem }
    }
}

/// Why a document gave no tree.
#[derive(Debug, PartialEq, Eq)]
pub enum DecodeError {
    /// The bytes are no JSON document.
    Malformed(SyntaxError),
    /// The document is JSON and does not follow the schema.
    Schema(SchemaError),
}

/// The key under which the external schema holds `field`.
pub fn key(field: Field) -> (text: &'static str)
    ensures
        text@ == key_of(field),
{
    match field {
        Field::Name => "name",
        Field::LinesCovered => "linesCovered",
        Field::LinesMissed => "linesMissed",
        Field::LinesTotal => "linesTotal",
        Field::CoveragePercent => "coveragePercent",
        Field::Children => "children",
    }
}

impl SchemaError {
    /// An error at the node itself.
    pub fn here(problem: Problem) -> (error: SchemaError)
        ensures
            error@ == (SchemaErrorView { path: Seq::empty(), problem }),
    {
        let error = SchemaError { path: Vec::new(), problem };
        assert(error@.path =~= Seq::empty());
        error
    }

    /// The same error, seen from the parent of the node that `key` names.
    pub fn within(self, key: &str) -> (seen: SchemaError)
        ensures
            seen@ == self@.within(key@),
    {
        let ghost before = self@;
        let mut path = self.path;
        path.insert(0, key.to_owned());
        let seen = SchemaError { path, problem: self.problem };
        assert(seen@.path =~= seq![key@] + before.path);
        seen
    }

    /// The error in words.
    pub fn message(&self) -> (text: String)
        ensures
            text@ == schema_message(self@),
    {
        let mut text = String::new();
        match self.problem {
            Problem::NotAnObject => {
                text.append("expected an object");
            },
            Problem::Missing(field) => {
                text.append("missing field `");
                text.append(key(field));
                text.append("`");
            },
            Problem::WrongType(field) => {
                text.append("invalid type for field `");
                text.append(key(field));
                text.append("`");
            },
        }
        text.append(" at ");
        if self.path.len() == 0 {
            text.append("/");
            return text;
        }
        let ghost head = text@;
        let mut i: usize = 0;
        while i < self.path.len()
            invariant
                i <= self.path.len(),
                text@ == head + path_text(self@.path.take(i as int)),
            decreases self.path.len() - i,
        {
            assert(self@.path.take(i + 1).drop_last() == self@.path.take(i as int));
            text.append("/");
            text.append(self.path[i].as_str());
            i += 1;
        }
        assert(self@.path.take(i as int) == self@.path);
        text
    }
}

impl DecodeError {
    /// The error in words.
    pub fn message(&self) -> (text: String)
        ensures
            text@ == match self {
                DecodeError::Malformed(error) => malformed_message(
                    error.line as nat,
                    error.column as nat,
                ),
                DecodeError::Schema(error) => schema_message(error@),
            },
    {
        match self {
            DecodeError::Malformed(error) => {
                let mut text = String::new();
                text.append("malformed document at line ");
                push_decimal(&mut text, error.line);
                text.append(" column ");
                push_decimal(&mut text, error.column);
                text
            },
            DecodeError::Schema(error) => error.message(),
        }
    }
}

/// The six keys of the schema differ from one another.
pub proof fn lemma_keys_differ()
    ensures
        forall|a: Field, b: Field| a != b ==> #[trigger] key_of(a) != #[trigger] key_of(b),
{
    reveal_strlit("name");
    reveal_strlit("linesCovered");
    reveal_strlit("linesMissed");
    reveal_strlit("linesTotal");
    reveal_strlit("coveragePercent");
    reveal_strlit("children");
    assert forall|a: Field, b: Field| a != b implies #[trigger] key_of(a) != #[trigger] key_of(
        b,
    ) by {
        assert(key_of(a).len() != key_of(b).len());
    }
}

} // verus!

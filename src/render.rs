//! Rendering a chain of relationship steps as text, one line per step.
use vstd::prelude::*;

use crate::person::Relationship;
use crate::resolve::{PersonRelationship, StepView};

verus! {

/// The character of a decimal digit.
pub open spec fn digit_char(d: int) -> char {
    seq!['0', '1', '2', '3', '4', '5', '6', '7', '8', '9'][d]
}

/// Decimal digits of a natural number, without leading zeros.
pub open spec fn natural_text(n: nat) -> Seq<char>
    decreases n,
{
    if n < 10 {
        seq![digit_char(n as int)]
    } else {
        natural_text(n / 10).push(digit_char((n % 10) as int))
    }
}

/// Decimal text of an integer, with a leading `-` when negative.
pub open spec fn decimal_text(n: int) -> Seq<char> {
    if n < 0 {
        seq!['-'] + natural_text((-n) as nat)
    } else {
        natural_text(n as nat)
    }
}

/// Relies on the `Display` of `i32`: its decimal text.
#[verifier::external_body]
fn int_text(n: i32) -> (r: String)
    ensures
        r@ == decimal_text(n as int),
{
    n.to_string()
}

/// The name of a relationship kind.
pub open spec fn kind_text(k: Relationship) -> Seq<char> {
    match k {
        Relationship::Spouse => "Spouse"@,
        Relationship::Father => "Father"@,
        Relationship::Mother => "Mother"@,
    }
}

/// `Name(ID) is Kind of` for a step with a relationship, `Name(ID)` otherwise.
pub open spec fn step_text(s: StepView) -> Seq<char> {
    let head = s.name + "("@ + decimal_text(s.id as int) + ")"@;
    match s.relationship {
        Some(k) => head + " is "@ + kind_text(k) + " of"@,
        None => head,
    }
}

/// Lines joined by `\n`, with no trailing newline.
pub open spec fn joined(lines: Seq<Seq<char>>) -> Seq<char>
    decreases lines.len(),
{
    if lines.len() == 0 {
        Seq::empty()
    } else if lines.len() == 1 {
        lines[0]
    } else {
        joined(lines.drop_last()) + "\n"@ + lines.last()
    }
}

impl Relationship {
    /// The name of the kind.
    pub fn name(&self) -> (r: &'static str)
        ensures
            r@ == kind_text(*self),
    {
        match self {
            Relationship::Spouse => "Spouse",
            Relationship::Father => "Father",
            Relationship::Mother => "Mother",
        }
    }
}

impl PersonRelationship {
    /// The line that reports this step.
    pub fn to_string(&self) -> (r: String)
        ensures
            r@ == step_text(self@),
    {
        let mut s = self.name.clone();
        s.append("(");
        let id = int_text(self.id);
        s.append(id.as_str());
        s.append(")");
        if let Some(k) = self.relationship {
            s.append(" is ");
            s.append(k.name());
            s.append(" of");
        }
        s
    }
}

/// Renders a chain, one line per step, joined by newlines.
pub fn fmt_person_relationships(rels: &[PersonRelationship]) -> (r: String)
    ensures
        r@ == joined(rels@.map_values(|x: PersonRelationship| step_text(x@))),
{
    let ghost lines = rels@.map_values(|x: PersonRelationship| step_text(x@));
    let mut out = String::new();
    let mut i: usize = 0;
    while i < rels.len()
        invariant
            i <= rels@.len(),
            lines == rels@.map_values(|x: PersonRelationship| step_text(x@)),
            out@ == joined(lines.subrange(0, i as int)),
        decreases rels@.len() - i,
    {
        let line = rels[i].to_string();
        if i > 0 {
            out.append("\n");
        }
        out.append(line.as_str());
        proof {
            let next = lines.subrange(0, i + 1);
            assert(next.drop_last() =~= lines.subrange(0, i as int));
            if i == 0 {
                assert(joined(next) == next[0]);
                assert(out@ =~= next[0]);
            }
        }
        i = i + 1;
    }
    assert(lines.subrange(0, rels@.len() as int) =~= lines);
    out
}

} // verus!

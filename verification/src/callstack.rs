//! The call stack as errors show it.

use vstd::prelude::*;
use crate::error::Ident;
use crate::files::{RawSpan, TermPos};

verus! {

/// An element of the call stack.
#[derive(Clone, Debug, PartialEq, Eq)]
pub enum StackElem {
    /// A function was applied.
    App { pos: TermPos },
    /// A variable was entered.
    Var { id: Ident, pos: TermPos },
    /// A record field was entered.
    Field { id: Ident, pos_record: TermPos, pos_field: TermPos, pos_access: TermPos },
}

/// A call: the function that was called, if it has a name, and where.
#[derive(Clone, Debug, PartialEq, Eq)]
pub struct CallDescr {
    pub head: Option<Ident>,
    pub span: RawSpan,
}

/// A call stack: its elements, oldest first, and the calls that grouping
/// them by calls gives: the calls that returned, and the call that was
/// running if there is one.
#[derive(Clone, Debug, PartialEq, Eq)]
pub struct CallStack {
    pub elems: Vec<StackElem>,
    pub calls: Vec<CallDescr>,
    pub curr_call: Option<CallDescr>,
}

/// What a search of the call stack for the field that was last entered
/// finds: the name of the field, the position of its record, and the
/// position of the access.
pub struct LastField {
    pub field: Option<Seq<char>>,
    pub pos_record: TermPos,
    pub pos_access: Option<TermPos>,
}

/// Searches the first `n` elements of `elems` from the youngest down for
/// the field that was last entered, when the younger elements gave `field`
/// as its name and `access` as the position of the access. The youngest
/// variable that the interpreter did not generate names the field if no
/// younger element did; the search ends at the youngest field.
pub open spec fn spec_last_field(
    elems: Seq<StackElem>,
    n: int,
    field: Option<Seq<char>>,
    access: Option<TermPos>,
) -> LastField
    decreases n,
{
    if n <= 0 {
        LastField { field, pos_record: TermPos::Absent, pos_access: access }
    } else {
        match elems[n - 1] {
            StackElem::Var { id, pos } => if !id.generated && field is None {
                spec_last_field(elems, n - 1, Some(id.label@), Some(pos))
            } else {
                spec_last_field(elems, n - 1, field, access)
            },
            StackElem::Field { id, pos_record, pos_field, pos_access } => LastField {
                field: match field {
                    Some(f) => Some(f),
                    None => Some(id.label@),
                },
                pos_record,
                pos_access: match access {
                    Some(a) => Some(a),
                    None => Some(pos_access),
                },
            },
            StackElem::App { pos } => spec_last_field(elems, n - 1, field, access),
        }
    }
}

/// The text of a string that may be missing.
pub open spec fn opt_text(s: Option<String>) -> Option<Seq<char>> {
    match s {
        Some(f) => Some(f@),
        None => None,
    }
}

impl CallStack {
    /// Searches the stack from the youngest element down for the field that
    /// was last entered.
    pub fn last_field(&self) -> (r: (Option<String>, TermPos, Option<TermPos>))
        ensures
            spec_last_field(self.elems@, self.elems@.len() as int, None, None) == (LastField {
                field: opt_text(r.0),
                pos_record: r.1,
                pos_access: r.2,
            }),
    {
        let mut field: Option<String> = None;
        let mut pos_record = TermPos::Absent;
        let mut pos_access: Option<TermPos> = None;
        let mut n: usize = self.elems.len();
        let ghost goal = spec_last_field(self.elems@, self.elems@.len() as int, None, None);
        while n > 0
            invariant
                n <= self.elems@.len(),
                pos_record == TermPos::Absent,
                goal == spec_last_field(self.elems@, self.elems@.len() as int, None, None),
                goal == spec_last_field(
                    self.elems@,
                    n as int,
                    opt_text(field),
                    pos_access,
                ),
            decreases n,
        {
            let ghost f0 = opt_text(field);
            let ghost a0 = pos_access;
            n = n - 1;
            proof {
                assert(goal == spec_last_field(self.elems@, n + 1, f0, a0));
            }
            match &self.elems[n] {
                StackElem::Var { id, pos } => {
                    if !id.generated && field.is_none() {
                        field = Some(id.label.clone());
                        pos_access = Some(*pos);
                    }
                },
                StackElem::Field { id, pos_record: pos_rec, pos_field: _, pos_access: pos_acc } => {
                    if field.is_none() {
                        field = Some(id.label.clone());
                    }
                    if pos_access.is_none() {
                        pos_access = Some(*pos_acc);
                    }
                    proof {
                        let f1 = opt_text(field);
                        assert(goal == (LastField {
                            field: f1,
                            pos_record: *pos_rec,
                            pos_access: pos_access,
                        }));
                    }
                    return (field, *pos_rec, pos_access);
                },
                StackElem::App { pos: _ } => {},
            }
        }
        (field, pos_record, pos_access)
    }
}

} // verus!

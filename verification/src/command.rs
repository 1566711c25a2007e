//! The command words a driving loop reads from the user: one word chooses
//! the action, and for `expand` a second word gives how many generations to
//! pre-compute. Words are separated by ASCII whitespace and the command word
//! is read without regard to letter case.

use vstd::prelude::*;

use crate::parse::digits_value;
use crate::parse::parse_usize;
use crate::parse::valid_number;

verus! {

/// What the user asked for.
#[derive(Debug, Clone, Copy, PartialEq, Eq, Structural)]
pub enum Action {
    /// Advance the simulation by one generation.
    Next,
    /// Retreat the simulation by one generation.
    Previous,
    /// Pre-compute this many generations past the frontier.
    PrecomputeNext(usize),
    /// The input named no known command.
    InvalidAction,
    /// Print the list of commands.
    Help,
    /// Leave the application.
    Quit,
}

pub open spec fn is_command_whitespace(b: u8) -> bool {
    b == 32 || b == 9 || b == 10 || b == 12 || b == 13
}

/// Index of the first non-whitespace byte at or after `from`, or the length.
pub open spec fn skip_ws(s: Seq<u8>, from: nat) -> nat
    decreases s.len() - from,
{
    if from >= s.len() {
        s.len()
    } else if is_command_whitespace(s[from as int]) {
        skip_ws(s, from + 1)
    } else {
        from
    }
}

/// Index of the first whitespace byte at or after `from`, or the length.
pub open spec fn token_end(s: Seq<u8>, from: nat) -> nat
    decreases s.len() - from,
{
    if from >= s.len() {
        s.len()
    } else if is_command_whitespace(s[from as int]) {
        from
    } else {
        token_end(s, from + 1)
    }
}

/// An ASCII capital letter folded to its small form; all else unchanged.
pub open spec fn lower(b: u8) -> u8 {
    if 65 <= b <= 90 {
        (b + 32) as u8
    } else {
        b
    }
}

pub open spec fn lower_seq(s: Seq<u8>) -> Seq<u8> {
    s.map_values(|b: u8| lower(b))
}

pub open spec fn word_is_next(t: Seq<u8>) -> bool {
    t == seq![110u8] || t == seq![110u8, 101u8, 120u8, 116u8]
}

pub open spec fn word_is_previous(t: Seq<u8>) -> bool {
    t == seq![112u8] || t == seq![112u8, 114u8, 101u8, 118u8] || t == seq![
        112u8,
        114u8,
        101u8,
        118u8,
        105u8,
        111u8,
        117u8,
        115u8,
    ]
}

pub open spec fn word_is_expand(t: Seq<u8>) -> bool {
    t == seq![101u8] || t == seq![101u8, 120u8, 112u8] || t == seq![
        101u8,
        120u8,
        112u8,
        97u8,
        110u8,
        100u8,
    ]
}

pub open spec fn word_is_quit(t: Seq<u8>) -> bool {
    t == seq![113u8] || t == seq![113u8, 117u8, 105u8, 116u8]
}

pub open spec fn word_is_help(t: Seq<u8>) -> bool {
    t == seq![104u8] || t == seq![104u8, 101u8, 108u8, 112u8]
}

/// The action the word after `from` asks for: pre-compute that many
/// generations, or reject the input when the word is missing, is no number,
/// or names a number the machine cannot hold.
pub open spec fn steps_action_of(s: Seq<u8>, from: nat) -> Action {
    let b = skip_ws(s, from);
    if b >= s.len() {
        Action::InvalidAction
    } else {
        let u = s.subrange(b as int, token_end(s, b) as int);
        if valid_number(u) && digits_value(u) <= usize::MAX {
            Action::PrecomputeNext(digits_value(u) as usize)
        } else {
            Action::InvalidAction
        }
    }
}

/// The action a line of input asks for: nothing when the line holds no word;
/// otherwise the case-folded first word chooses the action, and an unknown
/// word is rejected.
pub open spec fn action_of(s: Seq<u8>) -> Option<Action> {
    let a = skip_ws(s, 0);
    if a >= s.len() {
        None
    } else {
        let t = lower_seq(s.subrange(a as int, token_end(s, a) as int));
        if word_is_next(t) {
            Some(Action::Next)
        } else if word_is_previous(t) {
            Some(Action::Previous)
        } else if word_is_expand(t) {
            Some(steps_action_of(s, token_end(s, a)))
        } else if word_is_quit(t) {
            Some(Action::Quit)
        } else if word_is_help(t) {
            Some(Action::Help)
        } else {
            Some(Action::InvalidAction)
        }
    }
}

/// Index of the first non-whitespace byte at or after `from`.
fn skip_whitespace(text: &[u8], from: usize) -> (r: usize)
    requires
        from <= text@.len(),
    ensures
        r as nat == skip_ws(text@, from as nat),
        from <= r <= text@.len(),
{
    let mut i: usize = from;
    while i < text.len() && (text[i] == 32 || text[i] == 9 || text[i] == 10 || text[i] == 12
        || text[i] == 13)
        invariant
            from <= i <= text@.len(),
            skip_ws(text@, from as nat) == skip_ws(text@, i as nat),
        decreases text@.len() - i,
    {
        i = i + 1;
    }
    i
}

/// Index of the first whitespace byte at or after `from`.
fn token_stop(text: &[u8], from: usize) -> (r: usize)
    requires
        from <= text@.len(),
    ensures
        r as nat == token_end(text@, from as nat),
        from <= r <= text@.len(),
{
    let mut i: usize = from;
    while i < text.len() && !(text[i] == 32 || text[i] == 9 || text[i] == 10 || text[i] == 12
        || text[i] == 13)
        invariant
            from <= i <= text@.len(),
            token_end(text@, from as nat) == token_end(text@, i as nat),
        decreases text@.len() - i,
    {
        i = i + 1;
    }
    i
}

/// The bytes of a word with every ASCII capital letter folded small.
fn to_lower(tok: &[u8]) -> (r: Vec<u8>)
    ensures
        r@ == lower_seq(tok@),
{
    let mut out: Vec<u8> = Vec::new();
    let mut i: usize = 0;
    while i < tok.len()
        invariant
            i <= tok@.len(),
            out@.len() == i as nat,
            forall|k: int| 0 <= k < i ==> out@[k] == lower(#[trigger] tok@[k]),
        decreases tok@.len() - i,
    {
        let b = tok[i];
        if 65 <= b && b <= 90 {
            out.push(b + 32);
        } else {
            out.push(b);
        }
        i = i + 1;
    }
    proof {
        assert(out@ =~= lower_seq(tok@));
    }
    out
}

fn eq_bytes(a: &[u8], b: &[u8]) -> (r: bool)
    ensures
        r == (a@ == b@),
{
    if a.len() != b.len() {
        return false;
    }
    let mut i: usize = 0;
    while i < a.len()
        invariant
            a@.len() == b@.len(),
            i <= a@.len(),
            forall|k: int| 0 <= k < i ==> a@[k] == b@[k],
        decreases a@.len() - i,
    {
        if a[i] != b[i] {
            return false;
        }
        i = i + 1;
    }
    proof {
        assert(a@ =~= b@);
    }
    true
}

/// Reads the word after `from` as the number of generations to pre-compute.
pub fn get_number_of_steps_to_precompute(line: &[u8], from: usize) -> (r: Action)
    requires
        from <= line@.len(),
    ensures
        r == steps_action_of(line@, from as nat),
{
    let nstart = skip_whitespace(line, from);
    if nstart == line.len() {
        return Action::InvalidAction;
    }
    let nend = token_stop(line, nstart);
    match parse_usize(&line[nstart..nend]) {
        Ok(v) => Action::PrecomputeNext(v),
        Err(_) => Action::InvalidAction,
    }
}

/// The action a line of input asks for, or nothing for a line of only
/// whitespace (the driving loop then repeats its default action).
pub fn get_action_from(line: &[u8]) -> (r: Option<Action>)
    ensures
        r == action_of(line@),
{
    let start = skip_whitespace(line, 0);
    if start == line.len() {
        return None;
    }
    let end = token_stop(line, start);
    let word = to_lower(&line[start..end]);
    let w = word.as_slice();
    let pat_n: [u8; 1] = [110];
    let pat_next: [u8; 4] = [110, 101, 120, 116];
    let pat_p: [u8; 1] = [112];
    let pat_prev: [u8; 4] = [112, 114, 101, 118];
    let pat_previous: [u8; 8] = [112, 114, 101, 118, 105, 111, 117, 115];
    let pat_e: [u8; 1] = [101];
    let pat_exp: [u8; 3] = [101, 120, 112];
    let pat_expand: [u8; 6] = [101, 120, 112, 97, 110, 100];
    let pat_q: [u8; 1] = [113];
    let pat_quit: [u8; 4] = [113, 117, 105, 116];
    let pat_h: [u8; 1] = [104];
    let pat_help: [u8; 4] = [104, 101, 108, 112];
    proof {
        assert(pat_n@ =~= seq![110u8]);
        assert(pat_next@ =~= seq![110u8, 101u8, 120u8, 116u8]);
        assert(pat_p@ =~= seq![112u8]);
        assert(pat_prev@ =~= seq![112u8, 114u8, 101u8, 118u8]);
        assert(pat_previous@ =~= seq![112u8, 114u8, 101u8, 118u8, 105u8, 111u8, 117u8, 115u8]);
        assert(pat_e@ =~= seq![101u8]);
        assert(pat_exp@ =~= seq![101u8, 120u8, 112u8]);
        assert(pat_expand@ =~= seq![101u8, 120u8, 112u8, 97u8, 110u8, 100u8]);
        assert(pat_q@ =~= seq![113u8]);
        assert(pat_quit@ =~= seq![113u8, 117u8, 105u8, 116u8]);
        assert(pat_h@ =~= seq![104u8]);
        assert(pat_help@ =~= seq![104u8, 101u8, 108u8, 112u8]);
    }
    if eq_bytes(w, pat_n.as_slice()) || eq_bytes(w, pat_next.as_slice()) {
        Some(Action::Next)
    } else if eq_bytes(w, pat_p.as_slice()) || eq_bytes(w, pat_prev.as_slice()) || eq_bytes(
        w,
        pat_previous.as_slice(),
    ) {
        Some(Action::Previous)
    } else if eq_bytes(w, pat_e.as_slice()) || eq_bytes(w, pat_exp.as_slice()) || eq_bytes(
        w,
        pat_expand.as_slice(),
    ) {
        Some(get_number_of_steps_to_precompute(line, end))
    } else if eq_bytes(w, pat_q.as_slice()) || eq_bytes(w, pat_quit.as_slice()) {
        Some(Action::Quit)
    } else if eq_bytes(w, pat_h.as_slice()) || eq_bytes(w, pat_help.as_slice()) {
        Some(Action::Help)
    } else {
        Some(Action::InvalidAction)
    }
}

} // verus!

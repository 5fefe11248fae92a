//! Parsing helpers for registry-entry hygiene.
//!
//! Registry scanning itself reads and writes the Windows registry and
//! lives outside the library; the piece of it that is pure logic —
//! pulling the executable path out of a stored command line so its
//! existence can be checked — lives here.

use vstd::prelude::*;
use crate::strutil::{
    lower_of, lowercase, contains_sub, spec_contains, spec_trim, trim, chars_vec, find_char,
};

verus! {

/// Some position of `s` holds character `c`.
pub open spec fn spec_has_char(s: Seq<char>, c: char) -> bool {
    exists|i: int| 0 <= i < s.len() && s[i] == c
}

/// Position `e` is the first occurrence of `c` in `s` at or after `from`.
pub open spec fn spec_first_char_at(s: Seq<char>, from: int, c: char, e: int) -> bool {
    &&& from <= e < s.len()
    &&& s[e] == c
    &&& forall|j: int| from <= j < e ==> s[j] != c
}

/// The executable path denoted by a command string, after trimming: a
/// quoted command yields what stands between the quotes; an installer
/// command (containing `msiexec` case-insensitively) yields nothing; a
/// command whose first space-delimited word looks like a path yields
/// that word; anything else is returned whole.
pub open spec fn spec_extract_path(cmd: Seq<char>) -> Seq<char> {
    let c = spec_trim(cmd);
    if c.len() > 0 && c[0] == '"' && (exists|e: int| spec_first_char_at(c, 1, '"', e)) {
        let e = choose|e: int| spec_first_char_at(c, 1, '"', e);
        c.subrange(1, e)
    } else if spec_contains(lower_of(c), "msiexec"@) {
        Seq::empty()
    } else if exists|sp: int| spec_first_char_at(c, 0, ' ', sp) {
        let sp = choose|sp: int| spec_first_char_at(c, 0, ' ', sp);
        if spec_has_char(c.subrange(0, sp), '\\') || spec_has_char(c.subrange(0, sp), '/') {
            c.subrange(0, sp)
        } else {
            c
        }
    } else {
        c
    }
}

proof fn lemma_first_char_unique(s: Seq<char>, from: int, c: char, e1: int, e2: int)
    requires
        spec_first_char_at(s, from, c, e1),
        spec_first_char_at(s, from, c, e2),
    ensures
        e1 == e2,
{
}

fn has_char_in(cs: &Vec<char>, upto: usize, c: char) -> (r: bool)
    requires
        upto <= cs@.len(),
    ensures
        r == spec_has_char(cs@.subrange(0, upto as int), c),
{
    let ghost pre = cs@.subrange(0, upto as int);
    let mut i: usize = 0;
    while i < upto
        invariant
            i <= upto <= cs@.len(),
            pre == cs@.subrange(0, upto as int),
            forall|j: int| 0 <= j < i ==> pre[j] != c,
        decreases upto - i,
    {
        if cs[i] == c {
            proof {
                assert(pre[i as int] == c);
            }
            return true;
        }
        i += 1;
    }
    false
}

/// Extracts the executable path from a command line as stored in the
/// registry (an uninstall string or a startup entry), so a caller can
/// test whether the file it names still exists.
pub fn extract_path_from_command(command: &str) -> (r: String)
    ensures
        r@ == spec_extract_path(command@),
{
    let trimmed = trim(command);
    let cs = chars_vec(trimmed);
    let ghost c = trimmed@;
    if cs.len() > 0 && cs[0] == '"' {
        if let Some(e) = find_char(&cs, 1, '"') {
            proof {
                assert(spec_first_char_at(c, 1, '"', e as int));
                let e2 = choose|e2: int| spec_first_char_at(c, 1, '"', e2);
                lemma_first_char_unique(c, 1, '"', e as int, e2);
            }
            return trimmed.substring_char(1, e).to_owned();
        }
        proof {
            assert forall|e: int| !spec_first_char_at(c, 1, '"', e) by {}
        }
    }
    let low = lowercase(trimmed);
    if contains_sub(low.as_str(), "msiexec") {
        return String::new();
    }
    if let Some(sp) = find_char(&cs, 0, ' ') {
        proof {
            assert(spec_first_char_at(c, 0, ' ', sp as int));
            let sp2 = choose|sp2: int| spec_first_char_at(c, 0, ' ', sp2);
            lemma_first_char_unique(c, 0, ' ', sp as int, sp2);
        }
        if has_char_in(&cs, sp, '\\') || has_char_in(&cs, sp, '/') {
            return trimmed.substring_char(0, sp).to_owned();
        }
        return trimmed.to_owned();
    }
    proof {
        assert forall|sp: int| !spec_first_char_at(c, 0, ' ', sp) by {}
    }
    trimmed.to_owned()
}

} // verus!

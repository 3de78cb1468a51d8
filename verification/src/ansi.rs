//! Removal of ANSI colour escape sequences from process output, and escaping
//! of regular-expression metacharacters in node names.

use vstd::prelude::*;

verus! {

use vstd::string::StringExecFns;

/// The escape character that opens an ANSI colour sequence.
pub open spec fn esc_char() -> char {
    '\x1b'
}

/// A character allowed in the body of a colour sequence: a digit or `;`.
pub open spec fn is_csi_body_char(c: char) -> bool {
    (48 <= c as int <= 57) || c as int == 59
}

/// Index just past the `m` that closes a colour-sequence body starting at
/// `i`, or `None` when no well-formed body starts there.
pub open spec fn csi_end_from(s: Seq<char>, i: int) -> Option<int>
    decreases s.len() - i,
{
    if i < 0 || i >= s.len() {
        None
    } else if s[i] == 'm' {
        Some(i + 1)
    } else if is_csi_body_char(s[i]) {
        csi_end_from(s, i + 1)
    } else {
        None
    }
}

/// Index just past a whole escape sequence (`ESC [ body m`) starting at `i`,
/// or `None` when position `i` does not open one.
pub open spec fn escape_end_from(s: Seq<char>, i: int) -> Option<int> {
    if 0 <= i && i + 1 < s.len() && s[i] == esc_char() && s[i + 1] == '[' {
        csi_end_from(s, i + 2)
    } else {
        None
    }
}

pub proof fn lemma_csi_end_bounds(s: Seq<char>, i: int)
    requires
        0 <= i <= s.len(),
    ensures
        csi_end_from(s, i) matches Some(j) ==> i < j <= s.len(),
    decreases s.len() - i,
{
    if i < s.len() && s[i] != 'm' && is_csi_body_char(s[i]) {
        lemma_csi_end_bounds(s, i + 1);
    }
}

/// The text from position `i` on, with every colour escape sequence removed.
pub open spec fn strip_from(s: Seq<char>, i: int) -> Seq<char>
    decreases s.len() - i,
    when 0 <= i <= s.len()
    via strip_from_decreases
{
    if i >= s.len() {
        Seq::empty()
    } else {
        match escape_end_from(s, i) {
            Some(j) => strip_from(s, j),
            None => seq![s[i]] + strip_from(s, i + 1),
        }
    }
}

#[via_fn]
proof fn strip_from_decreases(s: Seq<char>, i: int) {
    if i < s.len() {
        if escape_end_from(s, i) is Some {
            lemma_csi_end_bounds(s, i + 2);
        }
    }
}

/// The whole text with every colour escape sequence removed.
pub open spec fn strip_spec(s: Seq<char>) -> Seq<char> {
    strip_from(s, 0)
}

proof fn lemma_csi_end_at(s: Seq<char>, i: int, j: int)
    requires
        0 <= i <= j <= s.len(),
        forall|k: int| i <= k < j ==> is_csi_body_char(s[k]),
    ensures
        j < s.len() && s[j] == 'm' ==> csi_end_from(s, i) == Some(j + 1),
        j < s.len() && s[j] != 'm' && !is_csi_body_char(s[j]) ==> csi_end_from(s, i)
            is None,
        j == s.len() ==> csi_end_from(s, i) is None,
    decreases j - i,
{
    if i < j {
        lemma_csi_end_at(s, i + 1, j);
    }
}

fn is_csi_body_at(s: &str, j: usize) -> (r: bool)
    requires
        j < s@.len(),
    ensures
        r == is_csi_body_char(s@[j as int]),
{
    let b = s.get_char(j) as u32;
    (48 <= b && b <= 57) || b == 59
}

/// Strips ANSI colour escape sequences (`ESC [`, digits or `;`, then `m`)
/// from a line of process output, leaving every other character in place.
pub fn strip_ansi_escapes(s: &str) -> (r: String)
    ensures
        r@ == strip_spec(s@),
{
    let n = s.unicode_len();
    let mut out = String::new();
    let mut i: usize = 0;
    while i < n
        invariant
            n == s@.len(),
            i <= n,
            strip_spec(s@) == out@ + strip_from(s@, i as int),
        decreases n - i,
    {
        let c = s.get_char(i);
        let mut consumed = false;
        if c == '\x1b' && i + 1 < n {
            if s.get_char(i + 1) == '[' {
                // Scan the body of a possible colour sequence.
                let mut j = i + 2;
                while j < n && is_csi_body_at(s, j)
                    invariant
                        n == s@.len(),
                        i + 2 <= j <= n,
                        forall|k: int| i + 2 <= k < j ==> is_csi_body_char(s@[k]),
                    decreases n - j,
                {
                    j = j + 1;
                }
                proof {
                    lemma_csi_end_at(s@, i + 2, j as int);
                }
                if j < n && s.get_char(j) == 'm' {
                    proof {
                        assert(escape_end_from(s@, i as int) == Some(j + 1));
                        assert(strip_from(s@, i as int) == strip_from(s@, j + 1));
                    }
                    i = j + 1;
                    consumed = true;
                } else {
                    proof {
                        assert(escape_end_from(s@, i as int) is None);
                    }
                }
            }
        }
        if !consumed {
            proof {
                assert(escape_end_from(s@, i as int) is None);
                assert(strip_from(s@, i as int) == seq![s@[i as int]] + strip_from(
                    s@,
                    i + 1,
                ));
            }
            out.append(s.substring_char(i, i + 1));
            proof {
                assert(s@.subrange(i as int, i + 1) =~= seq![s@[i as int]]);
                assert(out@ + strip_from(s@, i + 1) =~= strip_spec(s@));
            }
            i = i + 1;
        }
    }
    proof {
        assert(strip_from(s@, n as int) =~= Seq::<char>::empty());
        assert(out@ =~= strip_spec(s@));
    }
    out
}

/// A regular-expression metacharacter, escaped when a node name is embedded
/// in a process-search pattern.
pub open spec fn is_regex_meta(c: char) -> bool {
    c == '.' || c == '+' || c == '*' || c == '?' || c == '^' || c == '$' || c == '('
        || c == ')' || c == '[' || c == ']' || c == '{' || c == '}' || c == '|'
        || c == '\\'
}

/// The text with a backslash placed before every metacharacter.
pub open spec fn regex_escape_from(s: Seq<char>, i: int) -> Seq<char>
    decreases s.len() - i,
{
    if i < 0 || i >= s.len() {
        Seq::empty()
    } else if is_regex_meta(s[i]) {
        seq!['\\', s[i]] + regex_escape_from(s, i + 1)
    } else {
        seq![s[i]] + regex_escape_from(s, i + 1)
    }
}

/// Escapes every regular-expression metacharacter in `s` with a backslash.
pub fn regex_escape(s: &str) -> (r: String)
    ensures
        r@ == regex_escape_from(s@, 0),
{
    let n = s.unicode_len();
    let mut out = String::new();
    let mut i: usize = 0;
    while i < n
        invariant
            n == s@.len(),
            i <= n,
            regex_escape_from(s@, 0) == out@ + regex_escape_from(s@, i as int),
        decreases n - i,
    {
        let c = s.get_char(i);
        let meta = c == '.' || c == '+' || c == '*' || c == '?' || c == '^' || c == '$'
            || c == '(' || c == ')' || c == '[' || c == ']' || c == '{' || c == '}'
            || c == '|' || c == '\\';
        if meta {
            out.append("\\");
            proof {
                reveal_strlit("\\");
            }
        }
        out.append(s.substring_char(i, i + 1));
        proof {
            assert(s@.subrange(i as int, i + 1) =~= seq![s@[i as int]]);
            assert(out@ + regex_escape_from(s@, i + 1) =~= regex_escape_from(s@, 0));
        }
        i = i + 1;
    }
    proof {
        assert(out@ =~= regex_escape_from(s@, 0));
    }
    out
}

} // verus!

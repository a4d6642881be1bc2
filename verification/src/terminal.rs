//! The verifiable half of the terminal coordinator: terminal identifiers and
//! the text kept in a terminal's lock file. The embedder owns the file
//! operations — exclusive creation, the liveness probe of the recorded
//! process, stale-lock removal — and goes through these functions for every
//! byte it writes or reads.

use vstd::prelude::*;

use crate::codec::{
    join_sep, lemma_digits_sep_free, lemma_join3, lemma_join_inj, parse_u64_text, sep_free,
    split_at_sep, strings_view,
};
use crate::numfmt::{dec_chars, fmt_u64, lemma_dec_chars_digits};
use crate::strutil::push_char;

verus! {

/// The longest accepted terminal identifier.
pub const MAX_TERMINAL_ID_LEN: usize = 32;

/// Whether one character may appear in a terminal identifier.
pub open spec fn terminal_id_char(c: char) -> bool {
    ('a' <= c && c <= 'z') || ('A' <= c && c <= 'Z') || ('0' <= c && c <= '9') || c == '_'
}

/// A valid terminal identifier: one to thirty-two characters, ASCII letters,
/// digits and underscores only.
pub open spec fn valid_terminal_id(s: Seq<char>) -> bool {
    1 <= s.len() <= MAX_TERMINAL_ID_LEN && forall|i: int|
        0 <= i < s.len() ==> terminal_id_char(#[trigger] s[i])
}

/// Checks a terminal identifier.
pub fn validate_terminal_id(id: &str) -> (r: bool)
    ensures
        r == valid_terminal_id(id@),
{
    let n = id.unicode_len();
    if n == 0 || n > MAX_TERMINAL_ID_LEN {
        return false;
    }
    let mut i: usize = 0;
    while i < n
        invariant
            i <= n,
            n == id@.len(),
            forall|k: int| 0 <= k < i ==> terminal_id_char(#[trigger] id@[k]),
        decreases n - i,
    {
        let c = id.get_char(i);
        let ok = ('a' <= c && c <= 'z') || ('A' <= c && c <= 'Z') || ('0' <= c && c <= '9') || c
            == '_';
        if !ok {
            return false;
        }
        i = i + 1;
    }
    true
}

/// The text of a lock file: process id, creation timestamp and terminal id,
/// one per line.
pub open spec fn lock_content_spec(pid: u64, created_ns: u64, terminal: Seq<char>) -> Seq<char> {
    dec_chars(pid as nat).add(seq!['\n']).add(dec_chars(created_ns as nat)).add(seq!['\n']).add(
        terminal,
    ).add(seq!['\n'])
}

/// Writes the lock-file text for this owner.
pub fn lock_content(pid: u64, created_ns: u64, terminal: &str) -> (r: String)
    ensures
        r@ == lock_content_spec(pid, created_ns, terminal@),
{
    let mut out = fmt_u64(pid);
    push_char(&mut out, '\n');
    let ts = fmt_u64(created_ns);
    out.append(ts.as_str());
    push_char(&mut out, '\n');
    out.append(terminal);
    push_char(&mut out, '\n');
    proof {
        assert(out@ =~= lock_content_spec(pid, created_ns, terminal@));
    }
    out
}

/// Reads a lock file back. Sound: accepted exactly in canonical form, so
/// the returned owner re-writes to the same text. Complete: every canonical
/// lock text (its terminal field being newline-free, as every valid terminal
/// id is) is accepted — a live owner's lock is never misread as garbage.
pub fn parse_lock_content(text: &str) -> (r: Option<(u64, u64, String)>)
    ensures
        r matches Some((pid, created_ns, terminal)) ==> text@ == lock_content_spec(pid,
            created_ns, terminal@),
        (exists|pid: u64, created_ns: u64, term: Seq<char>|
            text@ == lock_content_spec(pid, created_ns, term) && sep_free(term, '\n'))
            ==> r is Some,
{
    let ghost has_w = exists|pid: u64, created_ns: u64, term: Seq<char>|
        text@ == lock_content_spec(pid, created_ns, term) && sep_free(term, '\n');
    let ghost (wpid, wts, wterm) = choose|pid: u64, created_ns: u64, term: Seq<char>|
        text@ == lock_content_spec(pid, created_ns, term) && sep_free(term, '\n');
    proof {
        if has_w {
            lemma_dec_chars_digits(wpid as nat);
            lemma_dec_chars_digits(wts as nat);
            lemma_digits_sep_free(dec_chars(wpid as nat), '\n');
            lemma_digits_sep_free(dec_chars(wts as nat), '\n');
        }
    }
    let n = text.unicode_len();
    if n == 0 {
        proof {
            if has_w {
                assert(false);
            }
        }
        return None;
    }
    if text.get_char(n - 1) != '\n' {
        proof {
            if has_w {
                assert(text@.last() == '\n');
                assert(false);
            }
        }
        return None;
    }
    let body = text.substring_char(0, n - 1);
    let parts = split_at_sep(body, '\n');
    proof {
        if has_w {
            lemma_join3(dec_chars(wpid as nat), dec_chars(wts as nat), wterm, '\n');
            assert(body@ =~= join_sep(
                seq![dec_chars(wpid as nat), dec_chars(wts as nat), wterm],
                '\n',
            ));
            lemma_join_inj(strings_view(parts@),
                seq![dec_chars(wpid as nat), dec_chars(wts as nat), wterm], '\n');
            assert(parts@.len() == 3);
            assert(parts@[0]@ == dec_chars(wpid as nat)) by {
                assert(strings_view(parts@)[0] == parts@[0]@);
            }
            assert(parts@[1]@ == dec_chars(wts as nat)) by {
                assert(strings_view(parts@)[1] == parts@[1]@);
            }
            assert(parts@[2]@ == wterm) by {
                assert(strings_view(parts@)[2] == parts@[2]@);
            }
        }
    }
    if parts.len() != 3 {
        proof {
            if has_w {
                assert(false);
            }
        }
        return None;
    }
    let pid = match parse_u64_text(parts[0].as_str()) {
        Some(v) => v,
        None => {
            proof {
                if has_w {
                    assert(false);
                }
            }
            return None;
        },
    };
    let created_ns = match parse_u64_text(parts[1].as_str()) {
        Some(v) => v,
        None => {
            proof {
                if has_w {
                    assert(false);
                }
            }
            return None;
        },
    };
    let terminal = parts[2].clone();
    let again = lock_content(pid, created_ns, terminal.as_str());
    let owned = text.to_owned();
    proof {
        if has_w {
            assert(pid == wpid && created_ns == wts && terminal@ == wterm);
            assert(again@ =~= text@);
        }
    }
    if again == owned {
        Some((pid, created_ns, terminal))
    } else {
        proof {
            if has_w {
                assert(false);
            }
        }
        None
    }
}

} // verus!

//! Line-ending normalization and translation of 1-based (line, column)
//! coordinates into 0-based byte offsets.
//!
//! File text is handled as a byte sequence.  Normalization rewrites every
//! `CRLF` pair and every lone `CR` into a single `LF`, so that afterwards a
//! single line-ending style remains and offsets computed against the
//! normalized text are exact.
use vstd::prelude::*;

verus! {

/// Carriage return.
pub const CR: u8 = 13;

/// Line feed.
pub const LF: u8 = 10;

/// What normalization produces on a byte sequence: every `CRLF` pair becomes
/// one `LF`, and every lone `CR` becomes an `LF`.
pub open spec fn normalized(s: Seq<u8>) -> Seq<u8>
    decreases s.len(),
{
    if s.len() == 0 {
        seq![]
    } else if s[0] == CR {
        if s.len() >= 2 && s[1] == LF {
            seq![LF] + normalized(s.skip(2))
        } else {
            seq![LF] + normalized(s.skip(1))
        }
    } else {
        seq![s[0]] + normalized(s.skip(1))
    }
}

/// Rewrites every `CRLF` pair and every lone `CR` to a single `LF`.
pub fn normalize_line_endings(s: &Vec<u8>) -> (r: Vec<u8>)
    ensures
        r@ == normalized(s@),
{
    let mut r: Vec<u8> = Vec::new();
    let mut i: usize = 0;
    proof {
        assert(s@.skip(0) =~= s@);
        assert(r@ + normalized(s@) =~= normalized(s@));
    }
    while i < s.len()
        invariant
            i <= s.len(),
            r@ + normalized(s@.skip(i as int)) == normalized(s@),
        decreases s.len() - i,
    {
        if s[i] == CR {
            if i + 1 < s.len() && s[i + 1] == LF {
                proof {
                    assert(s@.skip(i as int).skip(2) =~= s@.skip(i + 2));
                }
                r.push(LF);
                i = i + 2;
            } else {
                proof {
                    assert(s@.skip(i as int).skip(1) =~= s@.skip(i + 1));
                }
                r.push(LF);
                i = i + 1;
            }
        } else {
            proof {
                assert(s@.skip(i as int).skip(1) =~= s@.skip(i + 1));
            }
            r.push(s[i]);
            i = i + 1;
        }
        assert(r@ + normalized(s@.skip(i as int)) == normalized(s@));
    }
    proof {
        assert(s@.skip(s@.len() as int) =~= Seq::<u8>::empty());
        assert(r@ =~= normalized(s@));
    }
    r
}

/// Normalized text holds no carriage return.
pub proof fn lemma_normalized_no_cr(s: Seq<u8>)
    ensures
        forall|i: int| 0 <= i < normalized(s).len() ==> normalized(s)[i] != CR,
    decreases s.len(),
{
    if s.len() == 0 {
    } else {
        let tail = if s[0] == CR && s.len() >= 2 && s[1] == LF {
            s.skip(2)
        } else {
            s.skip(1)
        };
        lemma_normalized_no_cr(tail);
        assert forall|i: int| 0 <= i < normalized(s).len() implies normalized(s)[i] != CR by {
            if i > 0 {
                assert(normalized(s)[i] == normalized(tail)[i - 1]);
            }
        }
    }
}

/// On text that holds no carriage return, normalization is the identity;
/// together with [`lemma_normalized_no_cr`] this makes it idempotent.
pub proof fn lemma_normalize_identity(s: Seq<u8>)
    requires
        forall|i: int| 0 <= i < s.len() ==> s[i] != CR,
    ensures
        normalized(s) == s,
    decreases s.len(),
{
    if s.len() == 0 {
        assert(normalized(s) =~= s);
    } else {
        lemma_normalize_identity(s.skip(1));
        assert(normalized(s) =~= s);
    }
}

/// Normalizing twice is the same as normalizing once.
pub proof fn lemma_normalize_idempotent(s: Seq<u8>)
    ensures
        normalized(normalized(s)) == normalized(s),
{
    lemma_normalized_no_cr(s);
    lemma_normalize_identity(normalized(s));
}

/// Index of the first line feed in `s`, or `-1` if there is none.
pub open spec fn first_lf(s: Seq<u8>) -> int
    decreases s.len(),
{
    if s.len() == 0 {
        -1
    } else if s[0] == LF {
        0
    } else if first_lf(s.skip(1)) < 0 {
        -1
    } else {
        first_lf(s.skip(1)) + 1
    }
}

/// How many line feeds `s` holds.
pub open spec fn count_lf(s: Seq<u8>) -> nat
    decreases s.len(),
{
    if s.len() == 0 {
        0
    } else {
        (if s[0] == LF {
            1nat
        } else {
            0nat
        }) + count_lf(s.skip(1))
    }
}

/// How many lines `s` splits into at line-feed boundaries: one more than the
/// number of line feeds, so a text ending in a line feed has a final empty
/// line and even the empty text has one (empty) line.
pub open spec fn num_lines(s: Seq<u8>) -> nat {
    count_lf(s) + 1
}

/// Offset of the first byte of 1-based line `line`, for `1 <= line <= num_lines(s)`.
pub open spec fn line_start(s: Seq<u8>, line: nat) -> nat
    decreases line,
{
    if line <= 1 {
        0
    } else if first_lf(s) < 0 {
        0
    } else {
        (first_lf(s) + 1 + line_start(s.skip(first_lf(s) + 1), (line - 1) as nat)) as nat
    }
}

/// The byte offset a 1-based `(line, col)` coordinate translates to: the start
/// of `line`, plus `col - 1` (or nothing when `col` is reported as 0, which
/// stands for an absent column), clamped to the text's length.  A `line` of 0
/// or one past the last line falls back to offset 0.
pub open spec fn spec_offset(s: Seq<u8>, line: nat, col: nat) -> nat {
    if line == 0 || line > num_lines(s) {
        0
    } else {
        let adj = if col >= 1 {
            (col - 1) as nat
        } else {
            0nat
        };
        if line_start(s, line) + adj > s.len() {
            s.len()
        } else {
            (line_start(s, line) + adj) as nat
        }
    }
}

proof fn lemma_first_lf_bounds(s: Seq<u8>)
    ensures
        first_lf(s) < 0 ==> forall|m: int| 0 <= m < s.len() ==> s[m] != LF,
        first_lf(s) >= 0 ==> first_lf(s) < s.len() && s[first_lf(s)] == LF && forall|m: int|
            0 <= m < first_lf(s) ==> s[m] != LF,
    decreases s.len(),
{
    if s.len() == 0 {
    } else if s[0] == LF {
    } else {
        lemma_first_lf_bounds(s.skip(1));
        if first_lf(s) >= 0 {
            assert forall|m: int| 0 <= m < first_lf(s) implies s[m] != LF by {
                if m > 0 {
                    assert(s[m] == s.skip(1)[m - 1]);
                }
            }
        } else {
            assert forall|m: int| 0 <= m < s.len() implies s[m] != LF by {
                if m > 0 {
                    assert(s[m] == s.skip(1)[m - 1]);
                }
            }
        }
    }
}

proof fn lemma_count_lf_concat(a: Seq<u8>, b: Seq<u8>)
    ensures
        count_lf(a + b) == count_lf(a) + count_lf(b),
    decreases a.len(),
{
    if a.len() == 0 {
        assert(a + b =~= b);
    } else {
        lemma_count_lf_concat(a.skip(1), b);
        assert((a + b).skip(1) =~= a.skip(1) + b);
    }
}

proof fn lemma_count_lf_lf_free(s: Seq<u8>)
    requires
        forall|m: int| 0 <= m < s.len() ==> s[m] != LF,
    ensures
        count_lf(s) == 0,
    decreases s.len(),
{
    if s.len() > 0 {
        lemma_count_lf_lf_free(s.skip(1));
    }
}

/// Splitting just past the first line feed accounts for exactly one of them.
proof fn lemma_count_lf_split_at_first(s: Seq<u8>)
    requires
        first_lf(s) >= 0,
    ensures
        count_lf(s) == 1 + count_lf(s.skip(first_lf(s) + 1)),
{
    lemma_first_lf_bounds(s);
    let k = first_lf(s);
    assert(s =~= s.take(k + 1) + s.skip(k + 1));
    lemma_count_lf_concat(s.take(k + 1), s.skip(k + 1));
    assert(s.take(k + 1) =~= s.take(k) + seq![LF]);
    lemma_count_lf_concat(s.take(k), seq![LF]);
    assert(forall|m: int| 0 <= m < s.take(k).len() ==> s.take(k)[m] != LF);
    lemma_count_lf_lf_free(s.take(k));
    assert(count_lf(seq![LF]) == 1) by {
        reveal_with_fuel(count_lf, 3);
        assert(seq![LF].skip(1) =~= Seq::<u8>::empty());
    }
}

/// A positive line-feed count means there is a first line feed.
proof fn lemma_count_lf_pos_has_first(s: Seq<u8>)
    requires
        count_lf(s) > 0,
    ensures
        first_lf(s) >= 0,
{
    lemma_first_lf_bounds(s);
    if first_lf(s) < 0 {
        lemma_count_lf_lf_free(s);
    }
}

/// A valid line's start lies within the text.
pub proof fn lemma_line_start_le_len(s: Seq<u8>, line: nat)
    requires
        1 <= line <= num_lines(s),
    ensures
        line_start(s, line) <= s.len(),
    decreases line,
{
    if line <= 1 {
    } else {
        lemma_count_lf_pos_has_first(s);
        lemma_first_lf_bounds(s);
        lemma_count_lf_split_at_first(s);
        let k = first_lf(s);
        lemma_line_start_le_len(s.skip(k + 1), (line - 1) as nat);
    }
}

/// The offset [`line_start`] names really is where line `line` begins: exactly
/// `line - 1` line feeds come before it, and it sits at the start of the text
/// or just past a line feed.
pub proof fn lemma_line_start_is_line_boundary(s: Seq<u8>, line: nat)
    requires
        1 <= line <= num_lines(s),
    ensures
        count_lf(s.take(line_start(s, line) as int)) == line - 1,
        line_start(s, line) == 0 || s[line_start(s, line) - 1] == LF,
    decreases line,
{
    if line <= 1 {
        assert(s.take(0) =~= Seq::<u8>::empty());
    } else {
        lemma_count_lf_pos_has_first(s);
        lemma_first_lf_bounds(s);
        lemma_count_lf_split_at_first(s);
        let k = first_lf(s);
        let rest = s.skip(k + 1);
        lemma_line_start_is_line_boundary(rest, (line - 1) as nat);
        lemma_line_start_le_len(rest, (line - 1) as nat);
        let sub = line_start(rest, (line - 1) as nat);
        assert(s.take(line_start(s, line) as int) =~= s.take(k + 1) + rest.take(sub as int));
        lemma_count_lf_concat(s.take(k + 1), rest.take(sub as int));
        assert(s.take(k + 1) =~= s.take(k) + seq![LF]);
        lemma_count_lf_concat(s.take(k), seq![LF]);
        assert(forall|m: int| 0 <= m < s.take(k).len() ==> s.take(k)[m] != LF);
        lemma_count_lf_lf_free(s.take(k));
        assert(count_lf(seq![LF]) == 1) by {
            reveal_with_fuel(count_lf, 3);
            assert(seq![LF].skip(1) =~= Seq::<u8>::empty());
        }
        if sub > 0 {
            assert(s[line_start(s, line) - 1] == rest[sub - 1]);
        }
    }
}

/// Translating `(line, 1)` for a line the text really has yields exactly that
/// line's first byte.
pub proof fn lemma_offset_of_line_start(s: Seq<u8>, line: nat)
    requires
        1 <= line <= num_lines(s),
    ensures
        spec_offset(s, line, 1) == line_start(s, line),
        count_lf(s.take(spec_offset(s, line, 1) as int)) == line - 1,
        spec_offset(s, line, 1) == 0 || s[spec_offset(s, line, 1) - 1] == LF,
{
    lemma_line_start_le_len(s, line);
    lemma_line_start_is_line_boundary(s, line);
}

/// Translates a 1-based `(line, col)` coordinate into a 0-based byte offset
/// into `text`, per [`spec_offset`]: never out of range, whatever the
/// coordinate.
pub fn line_col_to_offset(text: &Vec<u8>, line: usize, col: usize) -> (off: usize)
    ensures
        off == spec_offset(text@, line as nat, col as nat),
        off <= text@.len(),
{
    if line == 0 {
        return 0;
    }
    let ghost s = text@;
    let mut pos: usize = 0;
    let mut cur: usize = 1;
    proof {
        assert(s.skip(0) =~= s);
        assert(s.take(0) =~= Seq::<u8>::empty());
    }
    while cur < line
        invariant
            1 <= cur <= line,
            pos <= text@.len(),
            text@ == s,
            line_start(s, line as nat) == pos + line_start(
                s.skip(pos as int),
                (line + 1 - cur) as nat,
            ),
            count_lf(s.take(pos as int)) == cur - 1,
        decreases line - cur,
    {
        // scan for the next line feed from pos
        let mut j: usize = pos;
        while j < text.len() && text[j] != LF
            invariant
                pos <= j <= text@.len(),
                text@ == s,
                forall|m: int| pos <= m < j ==> s[m] != LF,
            decreases text@.len() - j,
        {
            j = j + 1;
        }
        proof {
            assert forall|m: int| 0 <= m < j - pos implies s.skip(pos as int)[m] != LF by {
                assert(s.skip(pos as int)[m] == s[pos + m]);
            }
        }
        if j == text.len() {
            // line lies past the last line of the text
            proof {
                lemma_first_lf_bounds(s.skip(pos as int));
                lemma_count_lf_lf_free(s.skip(pos as int));
                assert(s =~= s.take(pos as int) + s.skip(pos as int));
                lemma_count_lf_concat(s.take(pos as int), s.skip(pos as int));
                assert(num_lines(s) == cur);
            }
            return 0;
        }
        proof {
            let t = s.skip(pos as int);
            assert(t[j - pos] == LF);
            lemma_first_lf_bounds(t);
            if first_lf(t) < 0 {
                assert(false);
            }
            if first_lf(t) < j - pos {
                assert(t[first_lf(t)] != LF);
                assert(false);
            }
            if first_lf(t) > j - pos {
                assert(false);
            }
            assert(first_lf(t) == j - pos);
            assert(t.skip(j - pos + 1) =~= s.skip(j + 1));
            assert(s.take(j + 1) =~= s.take(pos as int) + t.take(j - pos + 1));
            lemma_count_lf_concat(s.take(pos as int), t.take(j - pos + 1));
            assert(t.take(j - pos + 1) =~= t.take(j - pos) + seq![LF]);
            lemma_count_lf_concat(t.take(j - pos), seq![LF]);
            assert forall|m: int| 0 <= m < t.take(j - pos).len() implies #[trigger] t.take(
                j - pos,
            )[m] != LF by {
                assert(t.take(j - pos)[m] == t[m]);
            }
            lemma_count_lf_lf_free(t.take(j - pos));
            assert(count_lf(seq![LF]) == 1) by {
                reveal_with_fuel(count_lf, 3);
                assert(seq![LF].skip(1) =~= Seq::<u8>::empty());
            }
        }
        pos = j + 1;
        cur = cur + 1;
    }
    proof {
        assert(line_start(s.skip(pos as int), 1) == 0);
        assert(line_start(s, line as nat) == pos);
        assert(s =~= s.take(pos as int) + s.skip(pos as int));
        lemma_count_lf_concat(s.take(pos as int), s.skip(pos as int));
        assert(count_lf(s) >= cur - 1);
        assert(line as nat <= num_lines(s));
    }
    let adj = if col >= 1 {
        col - 1
    } else {
        0
    };
    if adj > text.len() - pos {
        text.len()
    } else {
        pos + adj
    }
}

} // verus!

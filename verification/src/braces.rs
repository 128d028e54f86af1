use vstd::prelude::*;
use crate::errors::RouteError;

verus! {

/// State of the brace scanner after reading the first `i` characters of `s`:
/// the top-level ranges found so far, the current nesting level, and the index
/// of the `{` that opened the current group (meaningful while the level is
/// positive).  `None` once a `}` with no matching `{` has been read.
pub open spec fn brace_state(s: Seq<char>, i: int) -> Option<(Seq<(int, int)>, int, int)>
    decreases i,
{
    if i <= 0 {
        Some((Seq::empty(), 0, 0))
    } else {
        match brace_state(s, i - 1) {
            None => None,
            Some((ps, level, start)) => {
                let c = s[i - 1];
                if c == '{' {
                    Some((ps, level + 1, if level == 0 { i - 1 } else { start }))
                } else if c == '}' {
                    if level == 0 {
                        None
                    } else if level == 1 {
                        Some((ps.push((start, i)), 0, start))
                    } else {
                        Some((ps, level - 1, start))
                    }
                } else {
                    Some((ps, level, start))
                }
            },
        }
    }
}

/// The character ranges of the top-level `{...}` groups of `s`, each given as
/// (index of the `{`, index one past the matching `}`); `None` when the braces
/// of `s` do not balance, a group left open at the end included.
pub open spec fn brace_spec(s: Seq<char>) -> Option<Seq<(int, int)>> {
    match brace_state(s, s.len() as int) {
        None => None,
        Some((ps, level, _start)) => if level == 0 {
            Some(ps)
        } else {
            None
        },
    }
}

/// The machine-sized ranges `v` name the same positions as the model ranges `ps`.
pub open spec fn ranges_match(v: Seq<(usize, usize)>, ps: Seq<(int, int)>) -> bool {
    &&& v.len() == ps.len()
    &&& forall|k: int|
        0 <= k < v.len() ==> (#[trigger] v[k]).0 == ps[k].0 && v[k].1 == ps[k].1
}

/// Once the scanner has failed it stays failed.
proof fn lemma_brace_state_none(s: Seq<char>, i: int, j: int)
    requires
        0 <= i <= j,
        brace_state(s, i) is None,
    ensures
        brace_state(s, j) is None,
    decreases j - i,
{
    if j > i {
        lemma_brace_state_none(s, i, j - 1);
    }
}

/// Invariants of the scanner state: ranges are in bounds, ordered, disjoint,
/// bracketed by `{` and `}`, and the open group (if any) starts after them.
proof fn lemma_brace_state_props(s: Seq<char>, i: int)
    requires
        0 <= i <= s.len(),
        brace_state(s, i) is Some,
    ensures
        ({
            let (ps, level, start) = brace_state(s, i)->Some_0;
            &&& 0 <= level
            &&& forall|k: int|
                0 <= k < ps.len() ==> 0 <= (#[trigger] ps[k]).0 && ps[k].0 + 2 <= ps[k].1 <= i
            &&& forall|k: int|
                0 <= k < ps.len() ==> s[(#[trigger] ps[k]).0] == '{' && s[ps[k].1 - 1] == '}'
            &&& forall|k: int| 0 < k < ps.len() ==> (#[trigger] ps[k - 1]).1 <= ps[k].0
            &&& level > 0 ==> 0 <= start < i && s[start] == '{' && (ps.len() > 0 ==> ps[ps.len()
                - 1].1 <= start)
            &&& ps.len() > 0 ==> ps[ps.len() - 1].1 <= i
        }),
    decreases i,
{
    if i > 0 {
        lemma_brace_state_props(s, i - 1);
    }
}

/// Law: every result of the brace locator lists ranges that are in bounds,
/// non-overlapping and monotonically increasing, and every range starts at a
/// `{` and ends one past the matching `}`.
pub proof fn lemma_brace_ranges(s: Seq<char>)
    requires
        brace_spec(s) is Some,
    ensures
        ({
            let ps = brace_spec(s)->Some_0;
            &&& forall|k: int|
                0 <= k < ps.len() ==> 0 <= (#[trigger] ps[k]).0 && ps[k].0 + 2 <= ps[k].1
                    <= s.len()
            &&& forall|k: int|
                0 <= k < ps.len() ==> s[(#[trigger] ps[k]).0] == '{' && s[ps[k].1 - 1] == '}'
            &&& forall|k: int| 0 < k < ps.len() ==> (#[trigger] ps[k - 1]).1 <= ps[k].0
        }),
{
    lemma_brace_state_props(s, s.len() as int);
}

/// The width in bytes of one character's UTF-8 encoding.
pub open spec fn char_width(c: char) -> int {
    vstd::utf8::encode_scalar(c as u32).len() as int
}

/// The byte offset at which character `i` of `s` starts in the UTF-8
/// encoding of `s`: the summed widths of the characters before it.
pub open spec fn byte_index(s: Seq<char>, i: int) -> int
    decreases i,
{
    if i <= 0 {
        0
    } else {
        byte_index(s, i - 1) + char_width(s[i - 1])
    }
}

/// Encoding distributes over concatenation.
proof fn lemma_encode_append(a: Seq<char>, b: Seq<char>)
    ensures
        vstd::utf8::encode_utf8(a + b) == vstd::utf8::encode_utf8(a) + vstd::utf8::encode_utf8(b),
    decreases a.len(),
{
    if a.len() == 0 {
        assert(a + b =~= b);
        assert(vstd::utf8::encode_utf8(a) + vstd::utf8::encode_utf8(b) =~= vstd::utf8::encode_utf8(
            b,
        ));
    } else {
        assert((a + b).drop_first() =~= a.drop_first() + b);
        assert((a + b)[0] == a[0]);
        lemma_encode_append(a.drop_first(), b);
        assert(vstd::utf8::encode_utf8(a + b) =~= vstd::utf8::encode_utf8(a)
            + vstd::utf8::encode_utf8(b));
    }
}

/// `byte_index` names the length of the UTF-8 encoding of the characters
/// before `i`: a byte offset into the encoded string.
pub proof fn lemma_byte_index_encode(s: Seq<char>, i: int)
    requires
        0 <= i <= s.len(),
    ensures
        byte_index(s, i) == vstd::utf8::encode_utf8(s.take(i)).len(),
    decreases i,
{
    if i > 0 {
        reveal_with_fuel(vstd::utf8::encode_utf8, 3);
        lemma_byte_index_encode(s, i - 1);
        assert(s.take(i) =~= s.take(i - 1) + seq![s[i - 1]]);
        lemma_encode_append(s.take(i - 1), seq![s[i - 1]]);
        let u = seq![s[i - 1]];
        assert(u.len() == 1 && u[0] == s[i - 1]);
        assert(u.drop_first() =~= Seq::<char>::empty());
        assert(vstd::utf8::encode_utf8(u.drop_first()) =~= Seq::<u8>::empty());
        assert(vstd::utf8::encode_utf8(u) =~= vstd::utf8::encode_scalar(s[i - 1] as u32)
            + vstd::utf8::encode_utf8(u.drop_first()));
        assert(vstd::utf8::encode_utf8(u) =~= vstd::utf8::encode_scalar(s[i - 1] as u32));
    }
}

/// Byte offsets grow strictly with character indices: each character is one
/// to four bytes wide.
pub proof fn lemma_byte_index_bounds(s: Seq<char>, i: int, j: int)
    requires
        0 <= i <= j <= s.len(),
    ensures
        byte_index(s, i) + (j - i) <= byte_index(s, j),
        byte_index(s, j) <= byte_index(s, i) + 4 * (j - i),
    decreases j - i,
{
    if j > i {
        lemma_byte_index_bounds(s, i, j - 1);
        assert(1 <= char_width(s[j - 1]) <= 4);
    }
}

/// Law: the byte ranges the locator reports are in bounds of the encoded
/// template, each at least two bytes wide, non-overlapping and monotonically
/// increasing, and each starts at the byte of a `{` and ends one byte past
/// the matching `}`.
pub proof fn lemma_brace_byte_ranges(s: Seq<char>)
    requires
        brace_spec(s) is Some,
    ensures
        ({
            let ps = brace_spec(s)->Some_0;
            &&& forall|k: int|
                0 <= k < ps.len() ==> 0 <= byte_index(s, (#[trigger] ps[k]).0) && byte_index(
                    s,
                    ps[k].0,
                ) + 2 <= byte_index(s, ps[k].1) <= byte_index(s, s.len() as int)
            &&& forall|k: int|
                0 < k < ps.len() ==> byte_index(s, (#[trigger] ps[k - 1]).1) <= byte_index(
                    s,
                    ps[k].0,
                )
            &&& forall|k: int|
                0 <= k < ps.len() ==> s[(#[trigger] ps[k]).0] == '{' && s[ps[k].1 - 1] == '}'
                    && byte_index(s, ps[k].1 - 1) + 1 == byte_index(s, ps[k].1)
        }),
{
    lemma_brace_ranges(s);
    let ps = brace_spec(s)->Some_0;
    assert forall|k: int|
        0 <= k < ps.len() implies 0 <= byte_index(s, (#[trigger] ps[k]).0) && byte_index(
        s,
        ps[k].0,
    ) + 2 <= byte_index(s, ps[k].1) <= byte_index(s, s.len() as int) by {
        lemma_byte_index_bounds(s, 0, ps[k].0);
        lemma_byte_index_bounds(s, ps[k].0, ps[k].1);
        lemma_byte_index_bounds(s, ps[k].1, s.len() as int);
    }
    assert forall|k: int|
        0 < k < ps.len() implies byte_index(s, (#[trigger] ps[k - 1]).1) <= byte_index(
        s,
        ps[k].0,
    ) by {
        lemma_byte_index_bounds(s, ps[k - 1].1, ps[k].0);
    }
    assert forall|k: int|
        0 <= k < ps.len() implies s[(#[trigger] ps[k]).0] == '{' && s[ps[k].1 - 1] == '}'
        && byte_index(s, ps[k].1 - 1) + 1 == byte_index(s, ps[k].1) by {
        assert(char_width('}') == 1);
    }
}

/// The byte offset at which character `ci` of `s` starts.
#[verifier::loop_isolation(false)]
fn byte_of(s: &str, ci: usize) -> (b: usize)
    requires
        ci <= s@.len(),
    ensures
        b as int == byte_index(s@, ci as int),
{
    broadcast use vstd::slice::axiom_spec_len;

    let total = s.as_bytes().len();
    proof {
        lemma_byte_index_encode(s@, s@.len() as int);
        assert(s@.take(s@.len() as int) =~= s@);
        assert(byte_index(s@, s@.len() as int) == total);
    }
    let mut i: usize = 0;
    let mut b: usize = 0;
    while i < ci
        invariant
            i <= ci,
            b as int == byte_index(s@, i as int),
        decreases ci - i,
    {
        proof {
            lemma_byte_index_bounds(s@, i as int, i as int + 1);
            lemma_byte_index_bounds(s@, i as int + 1, s@.len() as int);
        }
        let c = s.get_char(i);
        let u = c as u32;
        let w: usize = if u < 0x80 {
            1
        } else if u < 0x800 {
            2
        } else if u < 0x10000 {
            3
        } else {
            4
        };
        proof {
            assert(w as int == char_width(c));
        }
        b = b + w;
        i = i + 1;
    }
    b
}

/// Locates the top-level `{...}` placeholders of `s`.  Each returned pair is
/// (byte offset of the `{`, byte offset one past the matching `}`), offsets
/// into the UTF-8 encoding of `s`; nested braces are not reported.  Errs
/// exactly when the braces of `s` do not balance: a `}` without a match, or
/// a group still open at the end.
pub fn brace_indices(s: &str) -> (res: Result<Vec<(usize, usize)>, RouteError>)
    ensures
        match res {
            Ok(v) => {
                &&& brace_spec(s@) matches Some(ps)
                &&& v@.len() == ps.len()
                &&& forall|k: int|
                    0 <= k < ps.len() ==> (#[trigger] v@[k]).0 == byte_index(s@, ps[k].0)
                        && v@[k].1 == byte_index(s@, ps[k].1)
            },
            Err(e) => brace_spec(s@) is None && e == RouteError::UnbalancedBraces,
        },
{
    let pairs = match brace_pairs(s) {
        Err(e) => {
            return Err(e);
        },
        Ok(v) => v,
    };
    proof {
        lemma_brace_ranges(s@);
    }
    let mut out: Vec<(usize, usize)> = Vec::new();
    let mut k: usize = 0;
    while k < pairs.len()
        invariant
            k <= pairs@.len(),
            brace_spec(s@) is Some,
            ranges_match(pairs@, brace_spec(s@)->Some_0),
            out@.len() == k,
            forall|j: int|
                0 <= j < k ==> (#[trigger] out@[j]).0 == byte_index(
                    s@,
                    brace_spec(s@)->Some_0[j].0,
                ) && out@[j].1 == byte_index(s@, brace_spec(s@)->Some_0[j].1),
        decreases pairs@.len() - k,
    {
        proof {
            lemma_brace_ranges(s@);
        }
        let p = pairs[k];
        let lo = byte_of(s, p.0);
        let hi = byte_of(s, p.1);
        out.push((lo, hi));
        k = k + 1;
    }
    Ok(out)
}

/// Locates the top-level `{...}` placeholders of `s`, as character ranges.
#[verifier::loop_isolation(false)]
pub(crate) fn brace_pairs(s: &str) -> (res: Result<Vec<(usize, usize)>, RouteError>)
    ensures
        match res {
            Ok(v) => brace_spec(s@) is Some && ranges_match(v@, brace_spec(s@)->Some_0),
            Err(e) => brace_spec(s@) is None && e == RouteError::UnbalancedBraces,
        },
{
    let n = s.unicode_len();
    let mut idxs: Vec<(usize, usize)> = Vec::new();
    let mut level: usize = 0;
    let mut start: usize = 0;
    let mut i: usize = 0;
    while i < n
        invariant
            n == s@.len(),
            i <= n,
            level <= i,
            brace_state(s@, i as int) is Some,
            ({
                let (ps, lvl, st) = brace_state(s@, i as int)->Some_0;
                &&& ranges_match(idxs@, ps)
                &&& lvl == level
                &&& (level > 0 ==> st == start as int)
            }),
        decreases n - i,
    {
        let c = s.get_char(i);
        if c == '{' {
            if level == 0 {
                start = i;
            }
            level = level + 1;
        } else if c == '}' {
            if level == 0 {
                proof {
                    lemma_brace_state_none(s@, i as int + 1, s@.len() as int);
                }
                return Err(RouteError::UnbalancedBraces);
            }
            if level == 1 {
                idxs.push((start, i + 1));
            }
            level = level - 1;
        }
        i = i + 1;
    }
    if level > 0 {
        return Err(RouteError::UnbalancedBraces);
    }
    Ok(idxs)
}

} // verus!

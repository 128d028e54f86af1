use vstd::prelude::*;

verus! {

/// What percent-decoding yields for an input: every `%HH` hex pair replaced
/// by its byte, every other byte kept, the decoded bytes then read as UTF-8;
/// `None` when the decoded bytes are not valid UTF-8.  A `+` is not treated
/// as a space.
pub uninterp spec fn pct_decoded(s: Seq<char>) -> Option<Seq<char>>;

/// Relies on percent_encoding::percent_decode and PercentDecode::decode_utf8:
/// the decoded form of the input, a function of the input alone.
#[verifier::external_body]
fn percent_decode_utf8(s: &str) -> (r: Option<String>)
    ensures
        r is Some <==> pct_decoded(s@) is Some,
        (r matches Some(d) ==> pct_decoded(s@) == Some(d@)),
{
    match percent_encoding::percent_decode(s.as_bytes()).decode_utf8() {
        Ok(cow) => Some(cow.into_owned()),
        Err(_) => None,
    }
}

/// Index of the first occurrence of `c1` or `c2` in `q`, or `q.len()` when
/// neither occurs.
pub open spec fn char_pos(q: Seq<char>, c1: char, c2: char) -> int
    decreases q.len(),
{
    if q.len() == 0 {
        0
    } else if q[0] == c1 || q[0] == c2 {
        0
    } else {
        1 + char_pos(q.drop_first(), c1, c2)
    }
}

/// `char_pos` is in bounds, misses everything before it, and hits at its
/// index when in range.
pub proof fn lemma_char_pos(q: Seq<char>, c1: char, c2: char)
    ensures
        0 <= char_pos(q, c1, c2) <= q.len(),
        forall|k: int| 0 <= k < char_pos(q, c1, c2) ==> q[k] != c1 && q[k] != c2,
        char_pos(q, c1, c2) < q.len() ==> (q[char_pos(q, c1, c2)] == c1 || q[char_pos(
            q,
            c1,
            c2,
        )] == c2),
    decreases q.len(),
{
    if q.len() > 0 && !(q[0] == c1 || q[0] == c2) {
        lemma_char_pos(q.drop_first(), c1, c2);
        assert forall|k: int| 0 <= k < char_pos(q, c1, c2) implies q[k] != c1 && q[k] != c2 by {
            if k > 0 {
                assert(q.drop_first()[k - 1] == q[k]);
            }
        }
    }
}

/// `char_pos` is the one position that misses everything before it and hits
/// at it (or the length when nothing hits).
proof fn lemma_char_pos_unique(q: Seq<char>, c1: char, c2: char, p: int)
    requires
        0 <= p <= q.len(),
        forall|k: int| 0 <= k < p ==> q[k] != c1 && q[k] != c2,
        p < q.len() ==> (q[p] == c1 || q[p] == c2),
    ensures
        char_pos(q, c1, c2) == p,
    decreases q.len(),
{
    if q.len() > 0 && p > 0 {
        assert(q[0] != c1 && q[0] != c2);
        assert(forall|k: int|
            0 <= k < p - 1 ==> q.drop_first()[k] == q[k + 1] && q[k + 1] != c1 && q[k + 1] != c2);
        lemma_char_pos_unique(q.drop_first(), c1, c2, p - 1);
    }
}

/// Whether `c` separates two query segments.
pub open spec fn is_sep(c: char) -> bool {
    c == '&' || c == ';'
}

/// The segments of a raw query: the spans between `&` or `;` separators, in
/// order.  Empty spans are kept here and skipped by the lookup.
pub open spec fn segments_of(q: Seq<char>) -> Seq<Seq<char>>
    decreases q.len(),
{
    if q.len() == 0 {
        Seq::empty()
    } else {
        let p = char_pos(q, '&', ';');
        if 0 <= p < q.len() {
            seq![q.take(p)] + segments_of(q.skip(p + 1))
        } else {
            seq![q]
        }
    }
}

/// The raw key part of a segment: everything before the first `=`, or the
/// whole segment when there is none.
pub open spec fn seg_key(seg: Seq<char>) -> Seq<char> {
    let p = char_pos(seg, '=', '=');
    if 0 <= p <= seg.len() {
        seg.take(p)
    } else {
        seg
    }
}

/// The raw value part of a segment: everything after the first `=`, or empty
/// when there is none.
pub open spec fn seg_val(seg: Seq<char>) -> Seq<char> {
    let p = char_pos(seg, '=', '=');
    if 0 <= p < seg.len() {
        seg.skip(p + 1)
    } else {
        Seq::empty()
    }
}

/// Whether a segment yields a value for `key`: it is not empty, its key part
/// decodes to exactly `key`, and its value part decodes as well.
pub open spec fn seg_hit(seg: Seq<char>, key: Seq<char>) -> bool {
    &&& seg.len() > 0
    &&& pct_decoded(seg_key(seg)) == Some(key)
    &&& pct_decoded(seg_val(seg)) is Some
}

/// The decoded value carried by the first segment that yields one for `key`.
pub open spec fn lookup_segments(segs: Seq<Seq<char>>, key: Seq<char>) -> Option<Seq<char>>
    decreases segs.len(),
{
    if segs.len() == 0 {
        None
    } else if seg_hit(segs[0], key) {
        Some(pct_decoded(seg_val(segs[0]))->Some_0)
    } else {
        lookup_segments(segs.drop_first(), key)
    }
}

/// The value the query scanner must report for `key` in the raw query `q`.
pub open spec fn query_value(q: Seq<char>, key: Seq<char>) -> Option<Seq<char>> {
    lookup_segments(segments_of(q), key)
}

/// Law: a key that no segment of the query yields is reported absent.
pub proof fn lemma_absent_key(q: Seq<char>, key: Seq<char>)
    requires
        forall|i: int| 0 <= i < segments_of(q).len() ==> !seg_hit(#[trigger] segments_of(q)[i], key),
    ensures
        query_value(q, key) is None,
{
    lemma_lookup_all_miss(segments_of(q), key);
}

proof fn lemma_lookup_all_miss(segs: Seq<Seq<char>>, key: Seq<char>)
    requires
        forall|i: int| 0 <= i < segs.len() ==> !seg_hit(#[trigger] segs[i], key),
    ensures
        lookup_segments(segs, key) is None,
    decreases segs.len(),
{
    if segs.len() > 0 {
        assert(forall|i: int|
            0 <= i < segs.drop_first().len() ==> segs.drop_first()[i] == segs[i + 1]
                && !seg_hit(segs[i + 1], key));
        lemma_lookup_all_miss(segs.drop_first(), key);
    }
}

/// Whether two string slices hold the same characters.
pub fn str_eq(a: &str, b: &str) -> (r: bool)
    ensures
        r == (a@ == b@),
{
    let na = a.unicode_len();
    let nb = b.unicode_len();
    if na != nb {
        return false;
    }
    let mut i: usize = 0;
    while i < na
        invariant
            i <= na,
            na == a@.len(),
            na == b@.len(),
            forall|k: int| 0 <= k < i ==> a@[k] == b@[k],
        decreases na - i,
    {
        if a.get_char(i) != b.get_char(i) {
            return false;
        }
        i = i + 1;
    }
    proof {
        assert(a@ =~= b@);
    }
    true
}

/// The first position at or after `from` where `s` holds `c1` or `c2`, or `n`
/// when neither occurs there.
pub(crate) fn find_char_from(s: &str, from: usize, n: usize, c1: char, c2: char) -> (r: usize)
    requires
        from <= n,
        n == s@.len(),
    ensures
        from <= r <= n,
        r - from == char_pos(s@.skip(from as int), c1, c2),
{
    let mut i: usize = from;
    while i < n
        invariant
            from <= i <= n,
            n == s@.len(),
            forall|k: int| from <= k < i ==> s@[k] != c1 && s@[k] != c2,
        decreases n - i,
    {
        let c = s.get_char(i);
        if c == c1 || c == c2 {
            proof {
                let q = s@.skip(from as int);
                assert(forall|k: int|
                    0 <= k < i - from ==> q[k] == s@[k + from] && s@[k + from] != c1 && s@[k + from]
                        != c2);
                lemma_char_pos_unique(q, c1, c2, i - from);
            }
            return i;
        }
        i = i + 1;
    }
    proof {
        let q = s@.skip(from as int);
        assert(forall|k: int|
            0 <= k < n - from ==> q[k] == s@[k + from] && s@[k + from] != c1 && s@[k + from] != c2);
        lemma_char_pos_unique(q, c1, c2, n - from);
    }
    n
}

/// Returns the first decoded value for `key` among the `&`- or `;`-separated
/// segments of `raw_query`, scanning left to right, together with `true`; or
/// the empty string and `false` when no segment yields one.  Segment keys are
/// compared with `key` after percent-decoding; segments that are empty or do
/// not decode as UTF-8 are skipped.
pub fn find_first_query_key(raw_query: &str, key: &str) -> (res: (String, bool))
    ensures
        match query_value(raw_query@, key@) {
            Some(v) => res.1 == true && res.0@ == v,
            None => res.1 == false && res.0@ == Seq::<char>::empty(),
        },
{
    let n = raw_query.unicode_len();
    let mut pos: usize = 0;
    proof {
        assert(raw_query@.skip(0) =~= raw_query@);
    }
    while pos < n
        invariant
            pos <= n,
            n == raw_query@.len(),
            query_value(raw_query@, key@) == lookup_segments(
                segments_of(raw_query@.skip(pos as int)),
                key@,
            ),
        decreases n - pos,
    {
        let ghost q = raw_query@.skip(pos as int);
        let sepi = find_char_from(raw_query, pos, n, '&', ';');
        proof {
            lemma_char_pos(q, '&', ';');
            assert(q.len() == n - pos);
        }
        let seg = raw_query.substring_char(pos, sepi);
        let ghost p = char_pos(q, '&', ';');
        proof {
            assert(seg@ =~= q.take(p));
            if p < q.len() {
                assert(segments_of(q) == seq![q.take(p)] + segments_of(q.skip(p + 1)));
                assert(segments_of(q)[0] == q.take(p));
                assert(segments_of(q).drop_first() =~= segments_of(q.skip(p + 1)));
            } else {
                assert(q.len() > 0 ==> segments_of(q) == seq![q]);
                assert(q.len() > 0 ==> q.take(p) =~= q && segments_of(q)[0] == q.take(p));
                assert(q.len() > 0 ==> segments_of(q).drop_first() =~= Seq::<Seq<char>>::empty());
                assert(q.skip(q.len() as int) =~= Seq::<char>::empty());
            }
        }
        let seg_n = seg.unicode_len();
        if seg_n > 0 {
            let eqi = find_char_from(seg, 0, seg_n, '=', '=');
            proof {
                lemma_char_pos(seg@, '=', '=');
                assert(seg@.skip(0) =~= seg@);
                assert(seg_key(seg@) =~= seg@.take(char_pos(seg@, '=', '=')));
            }
            let key_part = seg.substring_char(0, eqi);
            let val_part = if eqi < seg_n {
                seg.substring_char(eqi + 1, seg_n)
            } else {
                ""
            };
            proof {
                assert(key_part@ =~= seg_key(seg@));
                if eqi < seg_n {
                    assert(val_part@ =~= seg_val(seg@));
                } else {
                    reveal_strlit("");
                    assert(val_part@ =~= seg_val(seg@));
                }
            }
            match percent_decode_utf8(key_part) {
                Some(dk) => {
                    if str_eq(dk.as_str(), key) {
                        match percent_decode_utf8(val_part) {
                            Some(dv) => {
                                proof {
                                    assert(seg_hit(seg@, key@));
                                    assert(lookup_segments(segments_of(q), key@) == Some(dv@));
                                }
                                return (dv, true);
                            },
                            None => {
                                proof {
                                    assert(!seg_hit(seg@, key@));
                                }
                            },
                        }
                    } else {
                        proof {
                            assert(!seg_hit(seg@, key@));
                        }
                    }
                },
                None => {
                    proof {
                        assert(!seg_hit(seg@, key@));
                    }
                },
            }
        } else {
            proof {
                assert(!seg_hit(seg@, key@));
            }
        }
        // the head segment missed: the lookup continues past the separator
        proof {
            if p < q.len() {
                assert(lookup_segments(segments_of(q), key@) == lookup_segments(
                    segments_of(q.skip(p + 1)),
                    key@,
                ));
                assert(q.skip(p + 1) =~= raw_query@.skip(pos + p + 1));
            } else {
                if q.len() > 0 {
                    assert(lookup_segments(segments_of(q), key@) == lookup_segments(
                        Seq::<Seq<char>>::empty(),
                        key@,
                    ));
                }
                assert(segments_of(raw_query@.skip(n as int)) =~= Seq::<Seq<char>>::empty());
            }
        }
        if sepi < n {
            pos = sepi + 1;
        } else {
            pos = n;
        }
    }
    proof {
        assert(raw_query@.skip(pos as int) =~= Seq::<char>::empty());
    }
    (String::new(), false)
}

} // verus!

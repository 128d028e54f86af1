use vstd::prelude::*;
use crate::braces::brace_spec;
use crate::route::RegexpType;
use crate::route::RouteRegexpOptions;
use crate::route::body_model;
use crate::route::compile_err;
use crate::route::esc;
use crate::route::esc_char;
use crate::route::group_chunk;
use crate::route::is_meta;
use crate::route::lit_chunk;
use crate::route::pattern_head;
use crate::route::pattern_model;
use crate::route::pattern_tail;
use crate::route::vars_model;
use crate::route::wildcard_of;

verus! {

/// One step of the capture-group scanner.  The state is the groups counted
/// so far, whether the next character is escaped, and whether an unescaped
/// `(` still awaits the character after it (it opens a capture group unless
/// that character is `?`).
pub open spec fn cap_step(st: (nat, bool, bool), c: char) -> (nat, bool, bool) {
    let (cnt, escaped, pending) = st;
    if escaped {
        (cnt, false, false)
    } else {
        let cnt2 = if pending && c != '?' {
            (cnt + 1) as nat
        } else {
            cnt
        };
        if c == '\\' {
            (cnt2, true, false)
        } else if c == '(' {
            (cnt2, false, true)
        } else {
            (cnt2, false, false)
        }
    }
}

/// The scanner state after reading `p` from state `st`.
pub open spec fn cap_fold(st: (nat, bool, bool), p: Seq<char>) -> (nat, bool, bool)
    decreases p.len(),
{
    if p.len() == 0 {
        st
    } else {
        cap_fold(cap_step(st, p[0]), p.drop_first())
    }
}

/// The number of capture groups of the regex text `p`: its unescaped `(` not
/// followed by `?`.
pub open spec fn cap_count(p: Seq<char>) -> nat {
    let st = cap_fold((0nat, false, false), p);
    if st.2 {
        (st.0 + 1) as nat
    } else {
        st.0
    }
}

/// The scanner folds over concatenation.
proof fn lemma_fold_append(st: (nat, bool, bool), a: Seq<char>, b: Seq<char>)
    ensures
        cap_fold(st, a + b) == cap_fold(cap_fold(st, a), b),
    decreases a.len(),
{
    if a.len() == 0 {
        assert(a + b =~= b);
    } else {
        assert((a + b).drop_first() =~= a.drop_first() + b);
        assert((a + b)[0] == a[0]);
        lemma_fold_append(cap_step(st, a[0]), a.drop_first(), b);
    }
}

/// The count already accumulated only shifts the final count.
proof fn lemma_fold_offset(c0: nat, escaped: bool, pending: bool, p: Seq<char>)
    ensures
        ({
            let a = cap_fold((0nat, escaped, pending), p);
            cap_fold((c0, escaped, pending), p) == (((c0 + a.0) as nat, a.1, a.2))
        }),
    decreases p.len(),
{
    if p.len() > 0 {
        let s1 = cap_step((0nat, escaped, pending), p[0]);
        let s2 = cap_step((c0, escaped, pending), p[0]);
        assert(s2.0 == c0 + s1.0 && s2.1 == s1.1 && s2.2 == s1.2);
        lemma_fold_offset(s1.0, s1.1, s1.2, p.drop_first());
        lemma_fold_offset(s2.0, s2.1, s2.2, p.drop_first());
    }
}

/// Escaped literal text opens no group and leaves the scanner clean.
proof fn lemma_fold_esc(lit: Seq<char>)
    ensures
        cap_fold((0nat, false, false), esc(lit)) == ((0nat, false, false)),
    decreases lit.len(),
{
    reveal_with_fuel(cap_fold, 3);
    if lit.len() > 0 {
        let c = lit[0];
        lemma_fold_append((0nat, false, false), esc_char(c), esc(lit.drop_first()));
        if is_meta(c) {
            assert(esc_char(c).drop_first() =~= seq![c]);
            assert(seq![c].drop_first() =~= Seq::<char>::empty());
            assert(cap_fold((0nat, false, false), esc_char(c)) == ((0nat, false, false)));
        } else {
            assert(esc_char(c).drop_first() =~= Seq::<char>::empty());
            assert(cap_fold((0nat, false, false), esc_char(c)) == ((0nat, false, false)));
        }
        lemma_fold_esc(lit.drop_first());
    }
}

/// A subpattern that brings no group of its own: it is not empty, it does
/// not begin with `?`, and scanning it from a clean state counts nothing and
/// ends clean.
pub open spec fn sub_no_groups(sub: Seq<char>) -> bool {
    &&& sub.len() > 0
    &&& sub[0] != '?'
    &&& cap_fold((0nat, false, false), sub) == ((0nat, false, false))
}

/// Reading one more character steps the scanner once.
proof fn lemma_fold_take_step(s: Seq<char>, i: int)
    requires
        0 <= i < s.len(),
    ensures
        cap_fold((0nat, false, false), s.take(i + 1)) == cap_step(
            cap_fold((0nat, false, false), s.take(i)),
            s[i],
        ),
{
    assert(s.take(i + 1) =~= s.take(i) + seq![s[i]]);
    lemma_fold_append((0nat, false, false), s.take(i), seq![s[i]]);
    lemma_fold1(cap_fold((0nat, false, false), s.take(i)), s[i]);
}

/// Whether the subpattern brings no capture group of its own.
#[verifier::loop_isolation(false)]
pub(crate) fn sub_plain(sub: &str) -> (r: bool)
    ensures
        r == sub_no_groups(sub@),
{
    let ln = sub.unicode_len();
    if ln == 0 {
        return false;
    }
    if sub.get_char(0) == '?' {
        return false;
    }
    let mut cnt: usize = 0;
    let mut escaped = false;
    let mut pending = false;
    let mut i: usize = 0;
    proof {
        assert(sub@.take(0) =~= Seq::<char>::empty());
    }
    while i < ln
        invariant
            i <= ln,
            cnt <= i,
            cap_fold((0nat, false, false), sub@.take(i as int)) == ((cnt as nat, escaped,
            pending)),
        decreases ln - i,
    {
        let c = sub.get_char(i);
        proof {
            lemma_fold_take_step(sub@, i as int);
        }
        if escaped {
            escaped = false;
            pending = false;
        } else {
            if pending && c != '?' {
                cnt = cnt + 1;
            }
            if c == '\\' {
                escaped = true;
                pending = false;
            } else if c == '(' {
                escaped = false;
                pending = true;
            } else {
                escaped = false;
                pending = false;
            }
        }
        i = i + 1;
    }
    proof {
        assert(sub@.take(ln as int) =~= sub@);
    }
    cnt == 0 && !escaped && !pending
}

/// Reading such a subpattern right after an unescaped `(` closes exactly one
/// group and leaves the scanner clean.
proof fn lemma_fold_sub(n: nat, sub: Seq<char>)
    requires
        sub_no_groups(sub),
    ensures
        cap_fold((n, false, true), sub) == (((n + 1) as nat, false, false)),
{
    let c0 = sub[0];
    assert(cap_step((n, false, true), c0) == cap_step(((n + 1) as nat, false, false), c0));
    let s1 = cap_step(((n + 1) as nat, false, false), c0);
    let s0 = cap_step((0nat, false, false), c0);
    assert(s1.0 == (n + 1) + s0.0 && s1.1 == s0.1 && s1.2 == s0.2);
    lemma_fold_offset(s0.0, s0.1, s0.2, sub.drop_first());
    lemma_fold_offset(s1.0, s1.1, s1.2, sub.drop_first());
    assert(cap_fold((0nat, false, false), sub) == cap_fold(s0, sub.drop_first()));
    assert(cap_fold((n, false, true), sub) == cap_fold(s1, sub.drop_first()));
}

/// Folding a five-character text, step by step.
proof fn lemma_fold5(st: (nat, bool, bool), c1: char, c2: char, c3: char, c4: char, c5: char)
    ensures
        cap_fold(st, seq![c1, c2, c3, c4, c5]) == cap_step(
            cap_step(cap_step(cap_step(cap_step(st, c1), c2), c3), c4),
            c5,
        ),
{
    reveal_with_fuel(cap_fold, 7);
    let s = seq![c1, c2, c3, c4, c5];
    assert(s.drop_first() =~= seq![c2, c3, c4, c5]);
    assert(seq![c2, c3, c4, c5].drop_first() =~= seq![c3, c4, c5]);
    assert(seq![c3, c4, c5].drop_first() =~= seq![c4, c5]);
    assert(seq![c4, c5].drop_first() =~= seq![c5]);
    assert(seq![c5].drop_first() =~= Seq::<char>::empty());
}

/// Folding a three-character text, step by step.
proof fn lemma_fold3(st: (nat, bool, bool), c1: char, c2: char, c3: char)
    ensures
        cap_fold(st, seq![c1, c2, c3]) == cap_step(cap_step(cap_step(st, c1), c2), c3),
{
    reveal_with_fuel(cap_fold, 5);
    let s = seq![c1, c2, c3];
    assert(s.drop_first() =~= seq![c2, c3]);
    assert(seq![c2, c3].drop_first() =~= seq![c3]);
    assert(seq![c3].drop_first() =~= Seq::<char>::empty());
}

/// Folding a one-character text.
proof fn lemma_fold1(st: (nat, bool, bool), c: char)
    ensures
        cap_fold(st, seq![c]) == cap_step(st, c),
{
    reveal_with_fuel(cap_fold, 3);
    assert(seq![c].drop_first() =~= Seq::<char>::empty());
}

/// The text of the first `i` placeholders opens one group per placeholder.
proof fn lemma_body_caps(
    s: Seq<char>,
    ps: Seq<(int, int)>,
    subs: Seq<Seq<char>>,
    wild: bool,
    i: int,
)
    requires
        0 <= i <= ps.len(),
        forall|k: int| 0 <= k < i ==> sub_no_groups(#[trigger] subs[k]),
    ensures
        cap_fold((0nat, false, false), body_model(s, ps, subs, wild, i)) == ((i as nat, false,
        false)),
    decreases i,
{
    if i > 0 {
        lemma_body_caps(s, ps, subs, wild, i - 1);
        let pre = body_model(s, ps, subs, wild, i - 1);
        let chunk = group_chunk(s, ps, subs, wild, i - 1);
        lemma_fold_append((0nat, false, false), pre, chunk);
        let st0 = (((i - 1) as nat), false, false);
        let lit = lit_chunk(s, ps, i - 1);
        if wild && i - 1 == ps.len() - 1 {
            let el = esc(lit.take(lit.len() - 1));
            let opener = "(?::("@;
            let closer = "))?"@;
            lemma_fold_esc(lit.take(lit.len() - 1));
            lemma_fold_offset(st0.0, false, false, el);
            assert(cap_fold(st0, el) == st0);
            lemma_fold_append(st0, el, opener + subs[i - 1] + closer);
            reveal_strlit("(?::(");
            assert(opener =~= seq!['(', '?', ':', ':', '(']);
            lemma_fold5(st0, '(', '?', ':', ':', '(');
            assert(cap_fold(st0, opener) == ((st0.0, false, true)));
            lemma_fold_append(st0, opener, subs[i - 1] + closer);
            lemma_fold_sub(st0.0, subs[i - 1]);
            lemma_fold_append((st0.0, false, true), subs[i - 1], closer);
            reveal_strlit("))?");
            assert(closer =~= seq![')', ')', '?']);
            let sti = ((i as nat), false, false);
            lemma_fold3(sti, ')', ')', '?');
            assert(cap_fold(sti, closer) == sti);
            assert(chunk =~= el + (opener + subs[i - 1] + closer));
            assert(opener + subs[i - 1] + closer =~= opener + (subs[i - 1] + closer));
            assert(cap_fold((0nat, false, false), body_model(s, ps, subs, wild, i)) == ((i as nat,
            false, false)));
        } else {
            let el = esc(lit);
            lemma_fold_esc(lit);
            lemma_fold_offset(st0.0, false, false, el);
            assert(cap_fold(st0, el) == st0);
            let opener = "("@;
            let closer = ")"@;
            lemma_fold_append(st0, el, opener + subs[i - 1] + closer);
            reveal_strlit("(");
            assert(opener =~= seq!['(']);
            lemma_fold1(st0, '(');
            assert(cap_fold(st0, opener) == ((st0.0, false, true)));
            lemma_fold_append(st0, opener, subs[i - 1] + closer);
            lemma_fold_sub(st0.0, subs[i - 1]);
            let sti = ((i as nat), false, false);
            lemma_fold_append((st0.0, false, true), subs[i - 1], closer);
            reveal_strlit(")");
            assert(closer =~= seq![')']);
            lemma_fold1(sti, ')');
            assert(cap_fold(sti, closer) == sti);
            assert(chunk =~= el + (opener + subs[i - 1] + closer));
            assert(opener + subs[i - 1] + closer =~= opener + (subs[i - 1] + closer));
            assert(cap_fold((0nat, false, false), body_model(s, ps, subs, wild, i)) == ((i as nat,
            false, false)));
        }
    }
}

/// The head anchor leaves the scanner clean and counts nothing.
proof fn lemma_head_caps(typ: RegexpType)
    ensures
        cap_fold((0nat, false, false), pattern_head(typ)) == ((0nat, false, false)),
{
    if typ == RegexpType::Host {
        reveal_strlit("(?i)^");
        assert(pattern_head(typ) =~= seq!['(', '?', 'i', ')', '^']);
        lemma_fold5((0nat, false, false), '(', '?', 'i', ')', '^');
    } else {
        reveal_strlit("^");
        assert(pattern_head(typ) =~= seq!['^']);
        lemma_fold1((0nat, false, false), '^');
    }
}

/// The tail anchor leaves the scanner clean and counts nothing.
proof fn lemma_tail_caps(st: (nat, bool, bool), typ: RegexpType, opts: RouteRegexpOptions)
    requires
        st.1 == false,
        st.2 == false,
    ensures
        cap_fold(st, pattern_tail(typ, opts)) == st,
{
    let dollar = "$"@;
    reveal_strlit("$");
    assert(dollar =~= seq!['$']);
    lemma_fold1(st, '$');
    if typ == RegexpType::Path && !opts.strict_slash {
        reveal_strlit("[/]?$");
        assert(pattern_tail(typ, opts) =~= seq!['[', '/', ']', '?', '$']);
        lemma_fold5(st, '[', '/', ']', '?', '$');
    }
}

/// Law: every successfully compiled template yields a pattern with exactly
/// one capture group per variable, so the groups of a match line up with
/// `vars_names`; the compiler rejects a subpattern that would bring a group
/// of its own.
pub proof fn lemma_capture_groups(s: Seq<char>, typ: RegexpType, opts: RouteRegexpOptions)
    requires
        compile_err(s, typ, opts) is None,
    ensures
        ({
            let ps = brace_spec(s)->Some_0;
            let vm = vars_model(s, ps, typ, ps.len() as int)->Ok_0;
            cap_count(pattern_model(s, ps, vm.1, typ, opts)) == vm.0.len()
        }),
{
    let ps = brace_spec(s)->Some_0;
    let vm = vars_model(s, ps, typ, ps.len() as int)->Ok_0;
    let subs = vm.1;
    crate::route::lemma_vars_lengths(s, ps, typ, ps.len() as int);
    crate::route::lemma_vars_model_plain(s, ps, typ, ps.len() as int);
    let wild = wildcard_of(s, ps, typ);
    let head = pattern_head(typ);
    let body = body_model(s, ps, subs, wild, ps.len() as int);
    let tail_lit = esc(lit_chunk(s, ps, ps.len() as int));
    let tail = pattern_tail(typ, opts);
    lemma_head_caps(typ);
    lemma_body_caps(s, ps, subs, wild, ps.len() as int);
    lemma_fold_esc(lit_chunk(s, ps, ps.len() as int));
    let stn = ((ps.len() as nat), false, false);
    lemma_fold_offset(stn.0, false, false, tail_lit);
    lemma_tail_caps(stn, typ, opts);
    lemma_fold_append((0nat, false, false), head, body + tail_lit + tail);
    lemma_fold_append((0nat, false, false), body, tail_lit + tail);
    lemma_fold_append(stn, tail_lit, tail);
    assert(pattern_model(s, ps, subs, typ, opts) =~= head + (body + tail_lit + tail));
    assert(body + tail_lit + tail =~= body + (tail_lit + tail));
    assert(cap_fold((0nat, false, false), pattern_model(s, ps, subs, typ, opts)) == stn);
}

} // verus!

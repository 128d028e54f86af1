use vstd::prelude::*;
use vstd::string::StringExecFns;
use crate::braces::brace_spec;
use crate::braces::brace_pairs;
use crate::caps::cap_count;
use crate::caps::sub_no_groups;
use crate::caps::sub_plain;
use crate::braces::lemma_brace_ranges;
use crate::braces::ranges_match;
use crate::engine::regex_found;
use crate::engine::regex_groups;
use crate::engine::regex_pattern;
use crate::engine::regex_valid;
use crate::engine::regex_new;
use crate::engine::regex_is_match;
use crate::engine::regex_captures;
use crate::errors::RouteError;
use crate::query::char_pos;
use crate::query::lemma_char_pos;
use crate::query::str_eq;

verus! {

/// The role a compiled route pattern plays: it decides anchoring, the default
/// per-variable subpattern, and trailing-slash handling.
#[derive(Clone, Copy, Debug, PartialEq, Eq, Hash, Structural)]
pub enum RegexpType {
    Path,
    Host,
    Prefix,
    Query,
}

/// Options of the route compiler.
#[derive(Clone, Copy, Debug, PartialEq, Eq, Structural)]
pub struct RouteRegexpOptions {
    /// When false on `Path` routes, a trailing slash is optional during match.
    pub strict_slash: bool,
    /// When true, path matching operates on the percent-encoded form.
    pub use_encoded_path: bool,
}

/// A compiled route pattern: an anchored regular expression, the plan for
/// extracting and validating its variables, and the reversal template that
/// rebuilds the component from variable values.
pub struct RouteRegexp {
    /// The template the route was compiled from, kept for diagnostics.
    pub template: String,
    /// The role of this route pattern.
    pub regexp_type: RegexpType,
    /// The options the route was compiled with.
    pub options: RouteRegexpOptions,
    /// The compiled anchored regular expression.
    pub regexp: regex::Regex,
    /// The text `regexp` was compiled from.
    pub pattern: String,
    /// The reversal template: the literal spans of the template with each
    /// placeholder replaced by the positional marker `%s`.
    pub reverse: String,
    /// The literal spans of the template around its placeholders, in order:
    /// one more entry than there are variables.
    pub reverse_lits: Vec<String>,
    /// The variable names, in template order, without duplicates.
    pub vars_names: Vec<String>,
    /// One compiled validator per variable, same order.
    pub vars_regexps: Vec<regex::Regex>,
    /// The text each validator was compiled from: the variable's subpattern,
    /// anchored on both sides.
    pub vars_patterns: Vec<String>,
    /// True exactly when this is a host pattern that ends in a port
    /// placeholder after a `:`; the port is then optional during match.
    pub wildcard_host_port: bool,
}

/// Characters that the escaper prefixes with a backslash: those with
/// significance in a regular expression.
pub open spec fn is_meta(c: char) -> bool {
    ||| c == '\\'
    ||| c == '.'
    ||| c == '+'
    ||| c == '*'
    ||| c == '?'
    ||| c == '('
    ||| c == ')'
    ||| c == '|'
    ||| c == '['
    ||| c == ']'
    ||| c == '{'
    ||| c == '}'
    ||| c == '^'
    ||| c == '$'
    ||| c == '#'
    ||| c == '&'
    ||| c == '-'
    ||| c == '~'
}

/// The escaped form of one character.
pub open spec fn esc_char(c: char) -> Seq<char> {
    if is_meta(c) {
        seq!['\\', c]
    } else {
        seq![c]
    }
}

/// The literal text `s` with every meta character escaped.
pub open spec fn esc(s: Seq<char>) -> Seq<char>
    decreases s.len(),
{
    if s.len() == 0 {
        Seq::empty()
    } else {
        esc_char(s[0]) + esc(s.drop_first())
    }
}

/// Whether `c` may start a variable name.
pub open spec fn is_name_start(c: char) -> bool {
    ||| ('a' as u32) <= (c as u32) && (c as u32) <= ('z' as u32)
    ||| ('A' as u32) <= (c as u32) && (c as u32) <= ('Z' as u32)
    ||| c == '_'
}

/// Whether `c` may continue a variable name.
pub open spec fn is_name_char(c: char) -> bool {
    is_name_start(c) || ('0' as u32) <= (c as u32) && (c as u32) <= ('9' as u32)
}

/// Whether `n` is a well-formed variable name.
pub open spec fn name_ok(n: Seq<char>) -> bool {
    &&& n.len() > 0
    &&& is_name_start(n[0])
    &&& forall|k: int| 0 < k < n.len() ==> is_name_char(#[trigger] n[k])
}

/// The text between the braces of placeholder `p` of `s`.
pub open spec fn pair_inner(s: Seq<char>, p: (int, int)) -> Seq<char> {
    s.subrange(p.0 + 1, p.1 - 1)
}

/// Whether a placeholder's inner text carries an explicit subpattern.
pub open spec fn inner_has_colon(inner: Seq<char>) -> bool {
    char_pos(inner, ':', ':') < inner.len()
}

/// The name part of a placeholder's inner text.
pub open spec fn inner_name(inner: Seq<char>) -> Seq<char> {
    inner.take(char_pos(inner, ':', ':'))
}

/// The explicit subpattern of a placeholder's inner text, empty when none.
pub open spec fn inner_raw_sub(inner: Seq<char>) -> Seq<char> {
    if inner_has_colon(inner) {
        inner.skip(char_pos(inner, ':', ':') + 1)
    } else {
        Seq::empty()
    }
}

/// The default subpattern a variable validates against when the placeholder
/// names none.
pub open spec fn default_sub(typ: RegexpType) -> Seq<char> {
    match typ {
        RegexpType::Path => "[^/]+"@,
        RegexpType::Prefix => "[^/]+"@,
        RegexpType::Host => "[^.]+"@,
        RegexpType::Query => ".*"@,
    }
}

/// The subpattern of a placeholder: explicit or defaulted by route type.
pub open spec fn inner_sub(inner: Seq<char>, typ: RegexpType) -> Seq<char> {
    if inner_has_colon(inner) {
        inner_raw_sub(inner)
    } else {
        default_sub(typ)
    }
}

/// A variable's subpattern anchored on both sides, as its validator is
/// compiled.
pub open spec fn anchored(sub: Seq<char>) -> Seq<char> {
    "^("@ + sub + ")$"@
}

/// Whether one of `names` is `n`.
pub open spec fn contains_seq(names: Seq<Seq<char>>, n: Seq<char>) -> bool {
    exists|j: int| 0 <= j < names.len() && names[j] == n
}

/// Names and subpatterns of the first `i` placeholders of `s`, or the first
/// error among them: a malformed name, an explicitly empty subpattern, a
/// subpattern whose anchored form the regex parser rejects or that brings a
/// capture group of its own (which would shift every later variable off its
/// group), or a duplicated name, in that order of checks for each
/// placeholder in turn.
pub open spec fn vars_model(s: Seq<char>, ps: Seq<(int, int)>, typ: RegexpType, i: int) -> Result<
    (Seq<Seq<char>>, Seq<Seq<char>>),
    RouteError,
>
    decreases i,
{
    if i <= 0 {
        Ok((Seq::empty(), Seq::empty()))
    } else {
        match vars_model(s, ps, typ, i - 1) {
            Err(e) => Err(e),
            Ok((names, subs)) => {
                let inner = pair_inner(s, ps[i - 1]);
                let nm = inner_name(inner);
                let sb = inner_sub(inner, typ);
                if !name_ok(nm) {
                    Err(RouteError::InvalidTemplate)
                } else if inner_has_colon(inner) && inner_raw_sub(inner).len() == 0 {
                    Err(RouteError::InvalidSubPattern)
                } else if !regex_valid(anchored(sb)) {
                    Err(RouteError::InvalidSubPattern)
                } else if !sub_no_groups(sb) {
                    Err(RouteError::InvalidSubPattern)
                } else if contains_seq(names, nm) {
                    Err(RouteError::DuplicateVariable)
                } else {
                    Ok((names.push(nm), subs.push(sb)))
                }
            },
        }
    }
}

/// The literal span of `s` before placeholder `i`, or after the last one for
/// `i == ps.len()`.
pub open spec fn lit_chunk(s: Seq<char>, ps: Seq<(int, int)>, i: int) -> Seq<char> {
    let lo = if i == 0 {
        0
    } else {
        ps[i - 1].1
    };
    let hi = if i < ps.len() {
        ps[i].0
    } else {
        s.len() as int
    };
    s.subrange(lo, hi)
}

/// Whether the template is a host pattern ending in a port placeholder after
/// a `:`.
pub open spec fn wildcard_of(s: Seq<char>, ps: Seq<(int, int)>, typ: RegexpType) -> bool {
    &&& typ == RegexpType::Host
    &&& ps.len() > 0
    &&& ps[ps.len() - 1].1 == s.len()
    &&& ps[ps.len() - 1].0 >= 1
    &&& s[ps[ps.len() - 1].0 - 1] == ':'
}

/// The regex text contributed by placeholder `i`: the escaped literal span
/// before it, then its subpattern as a capture group.  The port placeholder
/// of a wildcard host pattern swallows the `:` before it and makes the whole
/// suffix optional.
pub open spec fn group_chunk(
    s: Seq<char>,
    ps: Seq<(int, int)>,
    subs: Seq<Seq<char>>,
    wild: bool,
    i: int,
) -> Seq<char> {
    let lit = lit_chunk(s, ps, i);
    if wild && i == ps.len() - 1 {
        esc(lit.take(lit.len() - 1)) + "(?::("@ + subs[i] + "))?"@
    } else {
        esc(lit) + "("@ + subs[i] + ")"@
    }
}

/// The regex text contributed by the first `i` placeholders.
pub open spec fn body_model(
    s: Seq<char>,
    ps: Seq<(int, int)>,
    subs: Seq<Seq<char>>,
    wild: bool,
    i: int,
) -> Seq<char>
    decreases i,
{
    if i <= 0 {
        Seq::empty()
    } else {
        body_model(s, ps, subs, wild, i - 1) + group_chunk(s, ps, subs, wild, i - 1)
    }
}

/// The head anchor of the synthesized pattern; host matching is
/// case-insensitive.
pub open spec fn pattern_head(typ: RegexpType) -> Seq<char> {
    if typ == RegexpType::Host {
        "(?i)^"@
    } else {
        "^"@
    }
}

/// The tail anchor of the synthesized pattern.
pub open spec fn pattern_tail(typ: RegexpType, opts: RouteRegexpOptions) -> Seq<char> {
    match typ {
        RegexpType::Path => if opts.strict_slash {
            "$"@
        } else {
            "[/]?$"@
        },
        RegexpType::Prefix => Seq::empty(),
        RegexpType::Host => "$"@,
        RegexpType::Query => "$"@,
    }
}

/// The full regex text synthesized for a template.
pub open spec fn pattern_model(
    s: Seq<char>,
    ps: Seq<(int, int)>,
    subs: Seq<Seq<char>>,
    typ: RegexpType,
    opts: RouteRegexpOptions,
) -> Seq<char> {
    pattern_head(typ) + body_model(s, ps, subs, wildcard_of(s, ps, typ), ps.len() as int) + esc(
        lit_chunk(s, ps, ps.len() as int),
    ) + pattern_tail(typ, opts)
}

/// The literal spans of the template around its placeholders, in order.
pub open spec fn rev_lits_model(s: Seq<char>, ps: Seq<(int, int)>) -> Seq<Seq<char>> {
    Seq::new((ps.len() + 1) as nat, |i: int| lit_chunk(s, ps, i))
}

/// The first `i` literal spans joined with the positional marker `%s`.
pub open spec fn rev_join(lits: Seq<Seq<char>>, i: int) -> Seq<char>
    decreases i,
{
    if i <= 0 {
        Seq::empty()
    } else if i == 1 {
        lits[0]
    } else {
        rev_join(lits, i - 1) + "%s"@ + lits[i - 1]
    }
}

/// The error `compile` reports for this template, or `None` when compilation
/// succeeds.
pub open spec fn compile_err(s: Seq<char>, typ: RegexpType, opts: RouteRegexpOptions) -> Option<
    RouteError,
> {
    match brace_spec(s) {
        None => Some(RouteError::UnbalancedBraces),
        Some(ps) => match vars_model(s, ps, typ, ps.len() as int) {
            Err(e) => Some(e),
            Ok((names, subs)) => if !regex_valid(pattern_model(s, ps, subs, typ, opts)) {
                Some(RouteError::InvalidSubPattern)
            } else {
                None
            },
        },
    }
}

impl RouteRegexp {
    /// Well-formedness: the variable plan is parallel (one validator, one
    /// validator pattern per name), names are distinct, there is one more
    /// literal span than variables, and each compiled regex holds the pattern
    /// text stored beside it.
    pub open spec fn wf(self) -> bool {
        &&& self.vars_names@.len() == self.vars_regexps@.len()
        &&& self.vars_patterns@.len() == self.vars_names@.len()
        &&& self.reverse_lits@.len() == self.vars_names@.len() + 1
        &&& regex_pattern(self.regexp) == self.pattern@
        &&& forall|i: int|
            0 <= i < self.vars_regexps@.len() ==> regex_pattern(#[trigger] self.vars_regexps@[i])
                == self.vars_patterns@[i]@
        &&& forall|i: int, j: int|
            0 <= i < j < self.vars_names@.len() ==> self.vars_names@[i]@ != self.vars_names@[j]@
    }
}

/// Escaping distributes over concatenation.
proof fn lemma_esc_append(a: Seq<char>, b: Seq<char>)
    ensures
        esc(a + b) == esc(a) + esc(b),
    decreases a.len(),
{
    if a.len() == 0 {
        assert(a + b =~= b);
        assert(esc(a) + esc(b) =~= esc(b));
    } else {
        assert((a + b).drop_first() =~= a.drop_first() + b);
        assert((a + b)[0] == a[0]);
        assert((a + b).len() > 0);
        lemma_esc_append(a.drop_first(), b);
        assert(esc(a + b) =~= esc(a) + esc(b));
    }
}

/// Escaping one more character appends its escaped form.
proof fn lemma_esc_step(s: Seq<char>, i: int)
    requires
        0 <= i < s.len(),
    ensures
        esc(s.take(i + 1)) == esc(s.take(i)) + esc_char(s[i]),
{
    assert(s.take(i + 1) =~= s.take(i) + seq![s[i]]);
    lemma_esc_append(s.take(i), seq![s[i]]);
    let u = seq![s[i]];
    assert(u.len() == 1 && u[0] == s[i]);
    assert(u.drop_first() =~= Seq::<char>::empty());
    assert(esc(u.drop_first()) =~= Seq::<char>::empty());
    assert(esc(u) =~= esc_char(s[i]) + esc(u.drop_first()));
    assert(esc(u) =~= esc_char(s[i]));
}

/// Whether the escaper prefixes `c` with a backslash.
fn is_meta_char(c: char) -> (b: bool)
    ensures
        b == is_meta(c),
{
    c == '\\' || c == '.' || c == '+' || c == '*' || c == '?' || c == '(' || c == ')' || c == '|'
        || c == '[' || c == ']' || c == '{' || c == '}' || c == '^' || c == '$' || c == '#' || c
        == '&' || c == '-' || c == '~'
}

/// Appends the escaped form of `lit` to `out`.
fn append_escaped(out: &mut String, lit: &str)
    ensures
        final(out)@ == old(out)@ + esc(lit@),
{
    let n = lit.unicode_len();
    let mut i: usize = 0;
    proof {
        assert(lit@.take(0) =~= Seq::<char>::empty());
        assert(old(out)@ + esc(lit@.take(0)) =~= old(out)@);
    }
    while i < n
        invariant
            i <= n,
            n == lit@.len(),
            out@ == old(out)@ + esc(lit@.take(i as int)),
        decreases n - i,
    {
        let c = lit.get_char(i);
        if is_meta_char(c) {
            out.append("\\");
        }
        let piece = lit.substring_char(i, i + 1);
        out.append(piece);
        proof {
            lemma_esc_step(lit@, i as int);
            assert(piece@ =~= seq![lit@[i as int]]);
            if is_meta(lit@[i as int]) {
                reveal_strlit("\\");
                assert("\\"@ =~= seq!['\\']);
            }
            assert(out@ =~= old(out)@ + esc(lit@.take(i as int + 1)));
        }
        i = i + 1;
    }
    proof {
        assert(lit@.take(n as int) =~= lit@);
    }
}

/// Whether `c` may start a variable name.
fn is_name_start_char(c: char) -> (b: bool)
    ensures
        b == is_name_start(c),
{
    let u = c as u32;
    (('a' as u32) <= u && u <= ('z' as u32)) || (('A' as u32) <= u && u <= ('Z' as u32)) || c == '_'
}

/// Whether `c` may continue a variable name.
fn is_name_char_exec(c: char) -> (b: bool)
    ensures
        b == is_name_char(c),
{
    let u = c as u32;
    is_name_start_char(c) || (('0' as u32) <= u && u <= ('9' as u32))
}

/// Whether `n` is a well-formed variable name.
#[verifier::loop_isolation(false)]
fn check_name(n: &str) -> (r: bool)
    ensures
        r == name_ok(n@),
{
    let ln = n.unicode_len();
    if ln == 0 {
        return false;
    }
    if !is_name_start_char(n.get_char(0)) {
        return false;
    }
    let mut k: usize = 1;
    while k < ln
        invariant
            1 <= k <= ln,
            forall|j: int| 0 < j < k ==> is_name_char(#[trigger] n@[j]),
        decreases ln - k,
    {
        if !is_name_char_exec(n.get_char(k)) {
            return false;
        }
        k = k + 1;
    }
    true
}

/// Whether one of `v` holds the characters of `n`.
#[verifier::loop_isolation(false)]
fn contains_str(v: &Vec<String>, n: &str) -> (r: bool)
    ensures
        r == contains_seq(v.deep_view(), n@),
{
    let mut j: usize = 0;
    while j < v.len()
        invariant
            j <= v@.len(),
            forall|k: int| 0 <= k < j ==> v.deep_view()[k] != n@,
        decreases v@.len() - j,
    {
        if str_eq(v[j].as_str(), n) {
            proof {
                assert(v.deep_view()[j as int] == n@);
            }
            return true;
        }
        j = j + 1;
    }
    proof {
        assert(!contains_seq(v.deep_view(), n@));
    }
    false
}

/// The default subpattern text for a route type.
fn default_sub_str(typ: RegexpType) -> (r: &'static str)
    ensures
        r@ == default_sub(typ),
{
    match typ {
        RegexpType::Path => "[^/]+",
        RegexpType::Prefix => "[^/]+",
        RegexpType::Host => "[^.]+",
        RegexpType::Query => ".*",
    }
}

/// A placeholder error stays whatever comes after it.
proof fn lemma_vars_model_err(s: Seq<char>, ps: Seq<(int, int)>, typ: RegexpType, i: int, j: int)
    requires
        0 <= i <= j,
        vars_model(s, ps, typ, i) is Err,
    ensures
        vars_model(s, ps, typ, j) == vars_model(s, ps, typ, i),
    decreases j - i,
{
    if j > i {
        lemma_vars_model_err(s, ps, typ, i, j - 1);
    }
}

/// A successful variable plan has one name and one subpattern per
/// placeholder, and no name twice.
proof fn lemma_vars_model_ok(s: Seq<char>, ps: Seq<(int, int)>, typ: RegexpType, i: int)
    requires
        0 <= i,
        vars_model(s, ps, typ, i) is Ok,
    ensures
        ({
            let (names, subs) = vars_model(s, ps, typ, i)->Ok_0;
            &&& names.len() == i
            &&& subs.len() == i
            &&& forall|a: int, b: int| 0 <= a < b < i ==> names[a] != names[b]
        }),
    decreases i,
{
    if i > 0 {
        lemma_vars_model_ok(s, ps, typ, i - 1);
        let (prev_names, prev_subs) = vars_model(s, ps, typ, i - 1)->Ok_0;
        let (names, subs) = vars_model(s, ps, typ, i)->Ok_0;
        let nm = inner_name(pair_inner(s, ps[i - 1]));
        assert(!contains_seq(prev_names, nm));
        assert forall|a: int, b: int| 0 <= a < b < i implies names[a] != names[b] by {
            if b == i - 1 {
                assert(names[a] == prev_names[a]);
                assert(!(0 <= a < prev_names.len() && prev_names[a] == nm));
            }
        }
    }
}

/// A successful variable plan names one subpattern per placeholder.
pub proof fn lemma_vars_lengths(s: Seq<char>, ps: Seq<(int, int)>, typ: RegexpType, i: int)
    requires
        0 <= i,
        vars_model(s, ps, typ, i) is Ok,
    ensures
        ({
            let m = vars_model(s, ps, typ, i)->Ok_0;
            m.0.len() == i && m.1.len() == i
        }),
{
    lemma_vars_model_ok(s, ps, typ, i);
}

/// Every subpattern of a successful variable plan brings no capture group of
/// its own: the compiler rejects one that would.
pub proof fn lemma_vars_model_plain(s: Seq<char>, ps: Seq<(int, int)>, typ: RegexpType, i: int)
    requires
        0 <= i,
        vars_model(s, ps, typ, i) is Ok,
    ensures
        ({
            let subs = (vars_model(s, ps, typ, i)->Ok_0).1;
            forall|k: int| 0 <= k < subs.len() ==> sub_no_groups(#[trigger] subs[k])
        }),
    decreases i,
{
    if i > 0 {
        lemma_vars_model_plain(s, ps, typ, i - 1);
        lemma_vars_model_ok(s, ps, typ, i - 1);
        let prev = (vars_model(s, ps, typ, i - 1)->Ok_0).1;
        let subs = (vars_model(s, ps, typ, i)->Ok_0).1;
        assert forall|k: int| 0 <= k < subs.len() implies sub_no_groups(#[trigger] subs[k]) by {
            if k < prev.len() {
                assert(subs[k] == prev[k]);
            }
        }
    }
}

/// Law: a compiled route pattern holds exactly one validator, and one
/// validator pattern, per variable name.
pub proof fn lemma_vars_parallel(r: RouteRegexp)
    requires
        r.wf(),
    ensures
        r.vars_names@.len() == r.vars_regexps@.len(),
        r.vars_patterns@.len() == r.vars_names@.len(),
{
}

/// Collects the variable plan of the template: names, subpatterns, compiled
/// validators and their pattern texts, or the first error among the
/// placeholders.
#[verifier::loop_isolation(false)]
fn collect_vars(template: &str, pairs: &Vec<(usize, usize)>, typ: RegexpType) -> (res: Result<
    (Vec<String>, Vec<String>, Vec<regex::Regex>, Vec<String>),
    RouteError,
>)
    requires
        brace_spec(template@) is Some,
        ranges_match(pairs@, brace_spec(template@)->Some_0),
    ensures
        ({
            let s = template@;
            let ps = brace_spec(s)->Some_0;
            match res {
                Ok(t) => {
                    &&& vars_model(s, ps, typ, ps.len() as int) matches Ok(m)
                    &&& t.0.deep_view() == m.0
                    &&& t.1.deep_view() == m.1
                    &&& t.2@.len() == t.0@.len()
                    &&& t.3@.len() == t.0@.len()
                    &&& forall|i: int|
                        0 <= i < t.1@.len() ==> t.3.deep_view()[i] == anchored(t.1.deep_view()[i])
                    &&& forall|i: int|
                        0 <= i < t.2@.len() ==> regex_pattern(#[trigger] t.2@[i]) == t.3@[i]@
                },
                Err(e) => vars_model(s, ps, typ, ps.len() as int) == Err::<
                    (Seq<Seq<char>>, Seq<Seq<char>>),
                    RouteError,
                >(e),
            }
        }),
{
    let ghost s = template@;
    let ghost psm = brace_spec(s)->Some_0;
    proof {
        lemma_brace_ranges(s);
    }
    let mut names: Vec<String> = Vec::new();
    let mut subs: Vec<String> = Vec::new();
    let mut regexps: Vec<regex::Regex> = Vec::new();
    let mut patterns: Vec<String> = Vec::new();
    proof {
        assert(names.deep_view() =~= Seq::<Seq<char>>::empty());
        assert(subs.deep_view() =~= Seq::<Seq<char>>::empty());
    }
    let mut i: usize = 0;
    while i < pairs.len()
        invariant
            i <= pairs@.len(),
            vars_model(s, psm, typ, i as int) == Ok::<(Seq<Seq<char>>, Seq<Seq<char>>), RouteError>(
                (names.deep_view(), subs.deep_view()),
            ),
            names@.len() == i,
            subs@.len() == i,
            regexps@.len() == i,
            patterns@.len() == i,
            forall|k: int|
                0 <= k < i ==> patterns.deep_view()[k] == anchored(subs.deep_view()[k]),
            forall|k: int|
                0 <= k < i ==> regex_pattern(#[trigger] regexps@[k]) == patterns@[k]@,
        decreases pairs@.len() - i,
    {
        let p = pairs[i];
        let ghost pm = psm[i as int];
        let inner = template.substring_char(p.0 + 1, p.1 - 1);
        proof {
            assert(inner@ =~= pair_inner(s, pm));
        }
        let inner_n = inner.unicode_len();
        let ci = crate::query::find_char_from(inner, 0, inner_n, ':', ':');
        proof {
            assert(inner@.skip(0) =~= inner@);
            lemma_char_pos(inner@, ':', ':');
        }
        let name = inner.substring_char(0, ci);
        proof {
            assert(name@ =~= inner_name(inner@));
        }
        let has_colon = ci < inner_n;
        if !check_name(name) {
            proof {
                lemma_vars_model_err(s, psm, typ, i as int + 1, psm.len() as int);
            }
            return Err(RouteError::InvalidTemplate);
        }
        if has_colon && ci + 1 == inner_n {
            proof {
                assert(inner_raw_sub(inner@) =~= Seq::<char>::empty());
                lemma_vars_model_err(s, psm, typ, i as int + 1, psm.len() as int);
            }
            return Err(RouteError::InvalidSubPattern);
        }
        let sub_str: &str = if has_colon {
            let raw = inner.substring_char(ci + 1, inner_n);
            proof {
                assert(raw@ =~= inner_raw_sub(inner@));
            }
            raw
        } else {
            default_sub_str(typ)
        };
        proof {
            assert(sub_str@ == inner_sub(inner@, typ));
        }
        let mut vp = "^(".to_owned();
        vp.append(sub_str);
        vp.append(")$");
        proof {
            assert(vp@ =~= anchored(sub_str@));
        }
        let re = match regex_new(vp.as_str()) {
            Ok(re) => re,
            Err(_) => {
                proof {
                    lemma_vars_model_err(s, psm, typ, i as int + 1, psm.len() as int);
                }
                return Err(RouteError::InvalidSubPattern);
            },
        };
        if !sub_plain(sub_str) {
            proof {
                lemma_vars_model_err(s, psm, typ, i as int + 1, psm.len() as int);
            }
            return Err(RouteError::InvalidSubPattern);
        }
        if contains_str(&names, name) {
            proof {
                lemma_vars_model_err(s, psm, typ, i as int + 1, psm.len() as int);
            }
            return Err(RouteError::DuplicateVariable);
        }
        let ghost old_names = names.deep_view();
        let ghost old_subs = subs.deep_view();
        let ghost old_patterns = patterns.deep_view();
        names.push(name.to_owned());
        subs.push(sub_str.to_owned());
        regexps.push(re);
        patterns.push(vp);
        proof {
            assert(names.deep_view() =~= old_names.push(name@));
            assert(subs.deep_view() =~= old_subs.push(sub_str@));
            assert(patterns.deep_view() =~= old_patterns.push(anchored(sub_str@)));
        }
        i = i + 1;
    }
    Ok((names, subs, regexps, patterns))
}

/// Whether the template ends in a port placeholder after a `:` of a host
/// pattern.
fn compute_wildcard(template: &str, pairs: &Vec<(usize, usize)>, typ: RegexpType) -> (w: bool)
    requires
        brace_spec(template@) is Some,
        ranges_match(pairs@, brace_spec(template@)->Some_0),
    ensures
        w == wildcard_of(template@, brace_spec(template@)->Some_0, typ),
{
    proof {
        lemma_brace_ranges(template@);
    }
    let n = template.unicode_len();
    if !(typ == RegexpType::Host) {
        return false;
    }
    if pairs.len() == 0 {
        return false;
    }
    let last = pairs[pairs.len() - 1];
    if last.1 != n {
        return false;
    }
    if last.0 < 1 {
        return false;
    }
    template.get_char(last.0 - 1) == ':'
}

/// Synthesizes the anchored regex text of the template.
#[verifier::loop_isolation(false)]
#[verifier::rlimit(60)]
fn build_pattern(
    template: &str,
    pairs: &Vec<(usize, usize)>,
    subs: &Vec<String>,
    typ: RegexpType,
    opts: RouteRegexpOptions,
) -> (out: String)
    requires
        brace_spec(template@) is Some,
        ranges_match(pairs@, brace_spec(template@)->Some_0),
        subs@.len() == brace_spec(template@)->Some_0.len(),
    ensures
        out@ == pattern_model(
            template@,
            brace_spec(template@)->Some_0,
            subs.deep_view(),
            typ,
            opts,
        ),
{
    let ghost s = template@;
    let ghost psm = brace_spec(s)->Some_0;
    let ghost sd = subs.deep_view();
    proof {
        lemma_brace_ranges(s);
    }
    let n = template.unicode_len();
    let wild = compute_wildcard(template, pairs, typ);
    let mut out: String = if typ == RegexpType::Host {
        "(?i)^".to_owned()
    } else {
        "^".to_owned()
    };
    proof {
        assert(out@ == pattern_head(typ));
        assert(out@ =~= pattern_head(typ) + body_model(s, psm, sd, wild, 0));
    }
    let mut i: usize = 0;
    let mut prev: usize = 0;
    while i < pairs.len()
        invariant
            i <= pairs@.len(),
            prev as int == (if i == 0 {
                0int
            } else {
                psm[i as int - 1].1
            }),
            out@ == pattern_head(typ) + body_model(s, psm, sd, wild, i as int),
        decreases pairs@.len() - i,
    {
        let p = pairs[i];
        let ghost pm = psm[i as int];
        let ghost lit = lit_chunk(s, psm, i as int);
        if wild && i + 1 == pairs.len() {
            proof {
                if i > 0 {
                    assert(s[psm[i as int - 1].1 - 1] == '}');
                }
                assert(s[pm.0 - 1] == ':');
                assert(prev < pm.0);
            }
            let piece = template.substring_char(prev, p.0 - 1);
            proof {
                assert(piece@ =~= lit.take(lit.len() - 1));
            }
            append_escaped(&mut out, piece);
            out.append("(?::(");
            out.append(subs[i].as_str());
            out.append("))?");
        } else {
            let piece = template.substring_char(prev, p.0);
            proof {
                assert(piece@ =~= lit);
            }
            append_escaped(&mut out, piece);
            out.append("(");
            out.append(subs[i].as_str());
            out.append(")");
        }
        proof {
            assert(sd[i as int] == subs@[i as int]@);
            assert(out@ =~= pattern_head(typ) + body_model(s, psm, sd, wild, i as int + 1));
        }
        prev = p.1;
        i = i + 1;
    }
    let tail = template.substring_char(prev, n);
    proof {
        assert(tail@ =~= lit_chunk(s, psm, psm.len() as int));
    }
    append_escaped(&mut out, tail);
    match typ {
        RegexpType::Path => if opts.strict_slash {
            out.append("$")
        } else {
            out.append("[/]?$")
        },
        RegexpType::Prefix => {},
        RegexpType::Host => out.append("$"),
        RegexpType::Query => out.append("$"),
    }
    proof {
        if typ == RegexpType::Prefix {
            assert(out@ + pattern_tail(typ, opts) =~= out@);
        }
        assert(out@ =~= pattern_model(s, psm, sd, typ, opts));
    }
    out
}

/// Cuts the template into its literal spans and joins them with the
/// positional marker `%s` into the reversal template.
#[verifier::loop_isolation(false)]
fn build_reverse(template: &str, pairs: &Vec<(usize, usize)>) -> (res: (Vec<String>, String))
    requires
        brace_spec(template@) is Some,
        ranges_match(pairs@, brace_spec(template@)->Some_0),
    ensures
        res.0.deep_view() == rev_lits_model(template@, brace_spec(template@)->Some_0),
        res.1@ == rev_join(
            rev_lits_model(template@, brace_spec(template@)->Some_0),
            brace_spec(template@)->Some_0.len() as int + 1,
        ),
{
    let ghost s = template@;
    let ghost psm = brace_spec(s)->Some_0;
    proof {
        lemma_brace_ranges(s);
    }
    let n = template.unicode_len();
    let mut lits: Vec<String> = Vec::new();
    let mut prev: usize = 0;
    let mut i: usize = 0;
    while i < pairs.len()
        invariant
            i <= pairs@.len(),
            prev as int == (if i == 0 {
                0int
            } else {
                psm[i as int - 1].1
            }),
            lits@.len() == i,
            forall|k: int| 0 <= k < i ==> lits.deep_view()[k] == lit_chunk(s, psm, k),
        decreases pairs@.len() - i,
    {
        let piece = template.substring_char(prev, pairs[i].0);
        proof {
            assert(piece@ =~= lit_chunk(s, psm, i as int));
        }
        let ghost old_lits = lits.deep_view();
        lits.push(piece.to_owned());
        proof {
            assert(lits.deep_view() =~= old_lits.push(piece@));
        }
        prev = pairs[i].1;
        i = i + 1;
    }
    let tail_piece = template.substring_char(prev, n);
    proof {
        assert(tail_piece@ =~= lit_chunk(s, psm, psm.len() as int));
    }
    let ghost old_lits = lits.deep_view();
    lits.push(tail_piece.to_owned());
    proof {
        assert(lits.deep_view() =~= old_lits.push(tail_piece@));
        assert(lits.deep_view() =~= rev_lits_model(s, psm));
    }
    let mut out: String = lits[0].clone();
    proof {
        assert(out@ == rev_join(lits.deep_view(), 1));
    }
    let mut k: usize = 1;
    while k < lits.len()
        invariant
            1 <= k <= lits@.len(),
            lits.deep_view() == rev_lits_model(s, psm),
            out@ == rev_join(lits.deep_view(), k as int),
        decreases lits@.len() - k,
    {
        out.append("%s");
        out.append(lits[k].as_str());
        proof {
            assert(out@ =~= rev_join(lits.deep_view(), k as int + 1));
        }
        k = k + 1;
    }
    (lits, out)
}

/// Compiles a route template into a `RouteRegexp`: locates its placeholders,
/// collects and validates the variable plan, synthesizes the anchored regex
/// and the reversal template, and records whether a host pattern ends in an
/// optional port.  Errs with the first problem found: unbalanced braces, a
/// malformed placeholder name, a subpattern that is empty, fails to parse,
/// or brings a capture group of its own (which would shift later variables
/// off their groups), or a duplicated variable name.  On success the
/// synthesized pattern holds exactly one capture group per variable.
pub fn compile(template: &str, typ: RegexpType, opts: RouteRegexpOptions) -> (res: Result<
    RouteRegexp,
    RouteError,
>)
    ensures
        match res {
            Err(e) => compile_err(template@, typ, opts) == Some(e),
            Ok(r) => ({
                let s = template@;
                let ps = brace_spec(s)->Some_0;
                let vm = vars_model(s, ps, typ, ps.len() as int);
                &&& compile_err(s, typ, opts) is None
                &&& r.wf()
                &&& r.template@ == s
                &&& r.regexp_type == typ
                &&& r.options == opts
                &&& r.pattern@ == pattern_model(s, ps, (vm->Ok_0).1, typ, opts)
                &&& r.vars_names.deep_view() == (vm->Ok_0).0
                &&& r.vars_patterns@.len() == (vm->Ok_0).1.len()
                &&& (forall|i: int|
                    0 <= i < (vm->Ok_0).1.len() ==> r.vars_patterns.deep_view()[i] == anchored(
                        (vm->Ok_0).1[i],
                    ))
                &&& r.reverse_lits.deep_view() == rev_lits_model(s, ps)
                &&& r.reverse@ == rev_join(rev_lits_model(s, ps), ps.len() as int + 1)
                &&& r.wildcard_host_port == wildcard_of(s, ps, typ)
                &&& cap_count(r.pattern@) == r.vars_names@.len()
            }),
        },
{
    let pairs = match brace_pairs(template) {
        Err(e) => {
            return Err(e);
        },
        Ok(v) => v,
    };
    let (names, subs, vars_regexps, vars_patterns) = match collect_vars(template, &pairs, typ) {
        Err(e) => {
            return Err(e);
        },
        Ok(t) => t,
    };
    proof {
        lemma_vars_model_ok(
            template@,
            brace_spec(template@)->Some_0,
            typ,
            brace_spec(template@)->Some_0.len() as int,
        );
    }
    let pattern = build_pattern(template, &pairs, &subs, typ, opts);
    let regexp = match regex_new(pattern.as_str()) {
        Err(_) => {
            return Err(RouteError::InvalidSubPattern);
        },
        Ok(re) => re,
    };
    let (reverse_lits, reverse) = build_reverse(template, &pairs);
    let wildcard_host_port = compute_wildcard(template, &pairs, typ);
    let r = RouteRegexp {
        template: template.to_owned(),
        regexp_type: typ,
        options: opts,
        regexp,
        pattern,
        reverse,
        reverse_lits,
        vars_names: names,
        vars_regexps,
        vars_patterns,
        wildcard_host_port,
    };
    proof {
        let tv = template@;
        let ps = brace_spec(tv)->Some_0;
        let vm = vars_model(tv, ps, typ, ps.len() as int);
        let m0 = (vm->Ok_0).0;
        assert(r.vars_names.deep_view().len() == r.vars_names@.len());
        assert(r.vars_names@.len() == m0.len());
        assert(r.reverse_lits.deep_view().len() == r.reverse_lits@.len());
        assert(r.reverse_lits@.len() == ps.len() + 1);
        assert(r.vars_patterns.deep_view().len() == r.vars_patterns@.len());
        assert forall|i: int, j: int|
            0 <= i < j < r.vars_names@.len() implies r.vars_names@[i]@ != r.vars_names@[j]@ by {
            assert(r.vars_names.deep_view()[i] == r.vars_names@[i]@);
            assert(r.vars_names.deep_view()[j] == r.vars_names@[j]@);
            assert(m0[i] != m0[j]);
        }
        assert(compile_err(tv, typ, opts) is None);
        crate::caps::lemma_capture_groups(tv, typ, opts);
    }
    Ok(r)
}

/// The text bound to capture group `i` (counted from zero among the groups
/// after the whole match): its captured text, or empty when the group did not
/// take part in the match or does not exist.
pub open spec fn group_text(gs: Seq<Option<Seq<char>>>, i: int) -> Seq<char> {
    if 0 <= i < gs.len() && gs[i] is Some {
        gs[i]->0
    } else {
        Seq::empty()
    }
}

/// The value the first binding for `name` carries, scanning left to right.
pub open spec fn lookup_binding(bs: Seq<(Seq<char>, Seq<char>)>, name: Seq<char>) -> Option<
    Seq<char>,
>
    decreases bs.len(),
{
    if bs.len() == 0 {
        None
    } else if bs[0].0 == name {
        Some(bs[0].1)
    } else {
        lookup_binding(bs.drop_first(), name)
    }
}

/// A lookup passes over bindings whose names all miss.
proof fn lemma_lookup_skip(bs: Seq<(Seq<char>, Seq<char>)>, name: Seq<char>, j: int)
    requires
        0 <= j <= bs.len(),
        forall|k: int| 0 <= k < j ==> (#[trigger] bs[k]).0 != name,
    ensures
        lookup_binding(bs, name) == lookup_binding(bs.skip(j), name),
    decreases j,
{
    if j > 0 {
        lemma_lookup_skip(bs, name, j - 1);
        assert(bs.skip(j - 1)[0] == bs[j - 1]);
        assert(bs.skip(j - 1).drop_first() =~= bs.skip(j));
    } else {
        assert(bs.skip(0) =~= bs);
    }
}

/// The first binding for `name`, or `None` when every binding misses.
#[verifier::loop_isolation(false)]
fn lookup_value(bindings: &Vec<(String, String)>, name: &str) -> (res: Option<String>)
    ensures
        match res {
            Some(v) => lookup_binding(bindings.deep_view(), name@) == Some(v@),
            None => lookup_binding(bindings.deep_view(), name@) is None,
        },
{
    let ghost bd = bindings.deep_view();
    let mut j: usize = 0;
    while j < bindings.len()
        invariant
            j <= bindings@.len(),
            forall|k: int| 0 <= k < j ==> (#[trigger] bd[k]).0 != name@,
        decreases bindings@.len() - j,
    {
        let bj = &bindings[j];
        if str_eq(bj.0.as_str(), name) {
            proof {
                lemma_lookup_skip(bd, name@, j as int);
                assert(bd.skip(j as int)[0] == bd[j as int]);
                assert(bd[j as int].0 == name@);
            }
            return Some(bj.1.clone());
        }
        j = j + 1;
    }
    proof {
        lemma_lookup_skip(bd, name@, bd.len() as int);
        assert(bd.skip(bd.len() as int) =~= Seq::<(Seq<char>, Seq<char>)>::empty());
    }
    None
}

/// The values chosen for the first `i` variables of the plan, or the first
/// failure: a missing binding, or a value its validator does not accept.
pub open spec fn build_vals(
    names: Seq<Seq<char>>,
    pats: Seq<Seq<char>>,
    bs: Seq<(Seq<char>, Seq<char>)>,
    i: int,
) -> Result<Seq<Seq<char>>, RouteError>
    decreases i,
{
    if i <= 0 {
        Ok(Seq::empty())
    } else {
        match build_vals(names, pats, bs, i - 1) {
            Err(e) => Err(e),
            Ok(vals) => match lookup_binding(bs, names[i - 1]) {
                None => Err(RouteError::MissingVariable),
                Some(v) => if !regex_found(pats[i - 1], v) {
                    Err(RouteError::InvalidVariable)
                } else {
                    Ok(vals.push(v))
                },
            },
        }
    }
}

/// A failure over the first variables stays whatever comes after it.
proof fn lemma_build_vals_err(
    names: Seq<Seq<char>>,
    pats: Seq<Seq<char>>,
    bs: Seq<(Seq<char>, Seq<char>)>,
    i: int,
    j: int,
)
    requires
        0 <= i <= j,
        build_vals(names, pats, bs, i) is Err,
    ensures
        build_vals(names, pats, bs, j) == build_vals(names, pats, bs, i),
    decreases j - i,
{
    if j > i {
        lemma_build_vals_err(names, pats, bs, i, j - 1);
    }
}

/// The literal spans joined with the first `i` values slotted in between.
pub open spec fn interleave(lits: Seq<Seq<char>>, vals: Seq<Seq<char>>, i: int) -> Seq<char>
    decreases i,
{
    if i <= 0 {
        if lits.len() > 0 {
            lits[0]
        } else {
            Seq::empty()
        }
    } else {
        interleave(lits, vals, i - 1) + vals[i - 1] + lits[i]
    }
}

impl RouteRegexp {
    /// The string `build` must produce for these bindings, or the error it
    /// must report: the value of the first binding for each variable in plan
    /// order, validated against the variable's anchored subpattern, slotted
    /// into the literal spans of the template.
    pub open spec fn build_spec(self, bs: Seq<(Seq<char>, Seq<char>)>) -> Result<
        Seq<char>,
        RouteError,
    > {
        match build_vals(
            self.vars_names.deep_view(),
            self.vars_patterns.deep_view(),
            bs,
            self.vars_names@.len() as int,
        ) {
            Err(e) => Err(e),
            Ok(vals) => Ok(
                interleave(self.reverse_lits.deep_view(), vals, self.vars_names@.len() as int),
            ),
        }
    }

    /// Matches one request component (a path, a host, or one `key=value`
    /// query segment, per the route's type) against the compiled pattern.
    /// Reports `None` exactly when the regex finds no match; otherwise one
    /// binding per variable, in plan order, holding the text its capture
    /// group matched (empty for a group left out of the match, as a wildcard
    /// host port is when absent).
    pub fn route_match(&self, input: &str) -> (res: Option<Vec<(String, String)>>)
        requires
            self.wf(),
        ensures
            res is Some <==> regex_found(self.pattern@, input@),
            (res matches Some(bs) ==> {
                &&& bs@.len() == self.vars_names@.len()
                &&& forall|i: int|
                    0 <= i < bs@.len() ==> (#[trigger] bs@[i]).0@ == self.vars_names@[i]@
                        && bs@[i].1@ == group_text(regex_groups(self.pattern@, input@), i)
            }),
    {
        let gs = match regex_captures(&self.regexp, input) {
            None => {
                return None;
            },
            Some(gs) => gs,
        };
        let ghost gd = regex_groups(self.pattern@, input@);
        let n = self.vars_names.len();
        let mut bs: Vec<(String, String)> = Vec::new();
        let mut i: usize = 0;
        while i < n
            invariant
                i <= n,
                n == self.vars_names@.len(),
                gs.deep_view() == gd,
                bs@.len() == i,
                forall|k: int|
                    0 <= k < i ==> (#[trigger] bs@[k]).0@ == self.vars_names@[k]@ && bs@[k].1@
                        == group_text(gd, k),
            decreases n - i,
        {
            let name = self.vars_names[i].clone();
            let val: String = if i < gs.len() {
                let gi = &gs[i];
                match gi {
                    Some(v) => v.clone(),
                    None => String::new(),
                }
            } else {
                String::new()
            };
            proof {
                assert(gs.deep_view().len() == gs@.len());
                if i < gs@.len() {
                    assert(gd[i as int] == gs@[i as int].deep_view());
                }
                assert(val@ == group_text(gd, i as int));
            }
            bs.push((name, val));
            i = i + 1;
        }
        Some(bs)
    }

    /// Rebuilds the component from variable bindings: the first binding for
    /// each variable of the plan, validated against the variable's anchored
    /// subpattern, slotted into the literal spans of the template in order.
    /// Errs with `MissingVariable` on the first variable no binding names,
    /// and with `InvalidVariable` on the first value a validator rejects.
    /// No encoding is applied to the values.
    pub fn build(&self, bindings: &Vec<(String, String)>) -> (res: Result<String, RouteError>)
        requires
            self.wf(),
        ensures
            match res {
                Ok(out) => self.build_spec(bindings.deep_view()) == Ok::<Seq<char>, RouteError>(
                    out@,
                ),
                Err(e) => self.build_spec(bindings.deep_view()) == Err::<Seq<char>, RouteError>(e),
            },
    {
        let ghost names_d = self.vars_names.deep_view();
        let ghost pats_d = self.vars_patterns.deep_view();
        let ghost bd = bindings.deep_view();
        let n = self.vars_names.len();
        let mut vals: Vec<String> = Vec::new();
        proof {
            assert(vals.deep_view() =~= Seq::<Seq<char>>::empty());
        }
        let mut i: usize = 0;
        while i < n
            invariant
                self.wf(),
                i <= n,
                n == self.vars_names@.len(),
                names_d == self.vars_names.deep_view(),
                pats_d == self.vars_patterns.deep_view(),
                bd == bindings.deep_view(),
                vals@.len() == i,
                build_vals(names_d, pats_d, bd, i as int) == Ok::<Seq<Seq<char>>, RouteError>(
                    vals.deep_view(),
                ),
            decreases n - i,
        {
            let v = match lookup_value(bindings, self.vars_names[i].as_str()) {
                None => {
                    proof {
                        lemma_build_vals_err(names_d, pats_d, bd, i as int + 1, n as int);
                    }
                    return Err(RouteError::MissingVariable);
                },
                Some(v) => v,
            };
            if !regex_is_match(&self.vars_regexps[i], v.as_str()) {
                proof {
                    assert(regex_pattern(self.vars_regexps@[i as int]) == pats_d[i as int]);
                    lemma_build_vals_err(names_d, pats_d, bd, i as int + 1, n as int);
                }
                return Err(RouteError::InvalidVariable);
            }
            let ghost old_vals = vals.deep_view();
            vals.push(v);
            proof {
                assert(vals.deep_view() =~= old_vals.push(vals@[i as int]@));
            }
            i = i + 1;
        }
        let mut out: String = self.reverse_lits[0].clone();
        let ghost lits_d = self.reverse_lits.deep_view();
        let ghost vals_d = vals.deep_view();
        proof {
            assert(lits_d[0] == self.reverse_lits@[0]@);
            assert(out@ == interleave(lits_d, vals_d, 0));
        }
        let mut k: usize = 0;
        while k < n
            invariant
                self.wf(),
                k <= n,
                n == self.vars_names@.len(),
                vals@.len() == n,
                lits_d == self.reverse_lits.deep_view(),
                vals_d == vals.deep_view(),
                out@ == interleave(lits_d, vals_d, k as int),
            decreases n - k,
        {
            out.append(vals[k].as_str());
            out.append(self.reverse_lits[k + 1].as_str());
            proof {
                assert(vals_d[k as int] == vals@[k as int]@);
                assert(lits_d[k as int + 1] == self.reverse_lits@[k as int + 1]@);
                assert(out@ =~= interleave(lits_d, vals_d, k as int + 1));
            }
            k = k + 1;
        }
        Ok(out)
    }
}

proof fn lemma_build_vals_ok(
    names: Seq<Seq<char>>,
    pats: Seq<Seq<char>>,
    bs: Seq<(Seq<char>, Seq<char>)>,
    i: int,
)
    requires
        0 <= i,
        forall|k: int| 0 <= k < i ==> lookup_binding(bs, #[trigger] names[k]) is Some,
        forall|k: int|
            0 <= k < i ==> regex_found(pats[k], lookup_binding(bs, #[trigger] names[k])->Some_0),
    ensures
        build_vals(names, pats, bs, i) is Ok,
        ({
            let vals = build_vals(names, pats, bs, i)->Ok_0;
            &&& vals.len() == i
            &&& forall|k: int| 0 <= k < i ==> vals[k] == lookup_binding(bs, #[trigger] names[k])->Some_0
        }),
    decreases i,
{
    if i > 0 {
        lemma_build_vals_ok(names, pats, bs, i - 1);
    }
}

impl RouteRegexp {
    /// Law: rebuilding succeeds on every set of bindings that names each
    /// variable of the plan and whose first value for each variable passes
    /// that variable's validator; the result slots exactly those values into
    /// the literal spans of the template, in plan order.
    pub proof fn lemma_build_succeeds(self, bs: Seq<(Seq<char>, Seq<char>)>)
        requires
            self.wf(),
            forall|k: int|
                0 <= k < self.vars_names@.len() ==> lookup_binding(
                    bs,
                    #[trigger] self.vars_names.deep_view()[k],
                ) is Some,
            forall|k: int|
                0 <= k < self.vars_names@.len() ==> regex_found(
                    self.vars_patterns.deep_view()[k],
                    lookup_binding(bs, #[trigger] self.vars_names.deep_view()[k])->Some_0,
                ),
        ensures
            self.build_spec(bs) is Ok,
            self.build_spec(bs)->Ok_0 == interleave(
                self.reverse_lits.deep_view(),
                build_vals(
                    self.vars_names.deep_view(),
                    self.vars_patterns.deep_view(),
                    bs,
                    self.vars_names@.len() as int,
                )->Ok_0,
                self.vars_names@.len() as int,
            ),
    {
        lemma_build_vals_ok(
            self.vars_names.deep_view(),
            self.vars_patterns.deep_view(),
            bs,
            self.vars_names@.len() as int,
        );
    }
}

/// Groups the route matchers of one route that carry variables: at most one
/// host pattern, at most one path pattern, and the query patterns, used by
/// callers to reconstruct URLs.
pub struct RouteRegexpGroup {
    pub host: Option<RouteRegexp>,
    pub path: Option<RouteRegexp>,
    pub queries: Vec<RouteRegexp>,
}

impl RouteRegexpGroup {
    /// Every matcher of the group is well formed.
    pub open spec fn wf(self) -> bool {
        &&& (self.host matches Some(h) ==> h.wf())
        &&& (self.path matches Some(p) ==> p.wf())
        &&& forall|i: int| 0 <= i < self.queries@.len() ==> (#[trigger] self.queries@[i]).wf()
    }
}

} // verus!

//! Character-level text helpers: comparisons, conversions, and the topic
//! name normalization applied to every externally supplied topic or tag.

use vstd::prelude::*;

verus! {

/// What `str::to_lowercase` returns: a pure function of the characters.
pub uninterp spec fn lower_of(s: Seq<char>) -> Seq<char>;

/// Relies on str::to_lowercase: the result depends on the characters alone.
#[verifier::external_body]
fn lower_chars(s: &str) -> (r: Vec<char>)
    ensures
        r@ == lower_of(s@),
{
    s.to_lowercase().chars().collect()
}

/// Relies on String's FromIterator over char: collecting yields exactly
/// those characters.
#[verifier::external_body]
pub(crate) fn chars_to_string(v: &Vec<char>) -> (r: String)
    ensures
        r@ == v@,
{
    v.iter().collect()
}

/// Character-for-character string equality.
pub fn str_eq(a: &str, b: &str) -> (r: bool)
    ensures
        r == (a@ == b@),
{
    let na = a.unicode_len();
    let nb = b.unicode_len();
    if na != nb {
        assert(a@.len() != b@.len());
        return false;
    }
    let mut i: usize = 0;
    while i < na
        invariant
            i <= na,
            na == a@.len(),
            na == b@.len(),
            forall|k: int| 0 <= k < i ==> a@[k] == b@[k],
        decreases na - i,
    {
        if a.get_char(i) != b.get_char(i) {
            return false;
        }
        i += 1;
    }
    assert(a@ =~= b@);
    true
}

/// Whether `p` is a prefix of `s`.
pub fn str_is_prefix(p: &str, s: &str) -> (r: bool)
    ensures
        r == (p@.len() <= s@.len() && p@ == s@.take(p@.len() as int)),
{
    let np = p.unicode_len();
    let ns = s.unicode_len();
    if np > ns {
        return false;
    }
    let mut i: usize = 0;
    while i < np
        invariant
            i <= np,
            np == p@.len(),
            ns == s@.len(),
            np <= ns,
            forall|k: int| 0 <= k < i ==> p@[k] == s@[k],
        decreases np - i,
    {
        if p.get_char(i) != s.get_char(i) {
            assert(p@[i as int] != s@.take(np as int)[i as int]);
            return false;
        }
        i += 1;
    }
    assert(p@ =~= s@.take(np as int));
    true
}

/// The characters of a string, as a vector.
pub fn str_to_chars(s: &str) -> (r: Vec<char>)
    ensures
        r@ == s@,
{
    let n = s.unicode_len();
    let mut r: Vec<char> = Vec::new();
    let mut i: usize = 0;
    while i < n
        invariant
            i <= n,
            n == s@.len(),
            r@ == s@.take(i as int),
        decreases n - i,
    {
        r.push(s.get_char(i));
        proof {
            assert(s@.take(i + 1) =~= s@.take(i as int).push(s@[i as int]));
        }
        i += 1;
    }
    proof {
        assert(s@.take(n as int) =~= s@);
    }
    r
}

/// The whitespace characters stripped by normalization.
pub open spec fn is_space(c: char) -> bool {
    c == ' ' || c == '\t' || c == '\n' || c == '\r'
}

/// Spaces become dashes.
pub open spec fn dash_spaces(s: Seq<char>) -> Seq<char> {
    s.map_values(|c: char| if c == ' ' { '-' } else { c })
}

/// Dots become underscores.
pub open spec fn underscore_dots(s: Seq<char>) -> Seq<char> {
    s.map_values(|c: char| if c == '.' { '_' } else { c })
}

/// Each leftmost, non-overlapping occurrence of `%20` becomes a dash.
pub open spec fn collapse_pct20(s: Seq<char>) -> Seq<char>
    decreases s.len(),
{
    if s.len() == 0 {
        Seq::empty()
    } else if s.len() >= 3 && s[0] == '%' && s[1] == '2' && s[2] == '0' {
        seq!['-'] + collapse_pct20(s.skip(3))
    } else {
        seq![s[0]] + collapse_pct20(s.skip(1))
    }
}

/// Leading whitespace removed.
pub open spec fn trim_front(s: Seq<char>) -> Seq<char>
    decreases s.len(),
{
    if s.len() > 0 && is_space(s[0]) {
        trim_front(s.drop_first())
    } else {
        s
    }
}

/// Trailing whitespace removed.
pub open spec fn trim_back(s: Seq<char>) -> Seq<char>
    decreases s.len(),
{
    if s.len() > 0 && is_space(s.last()) {
        trim_back(s.drop_last())
    } else {
        s
    }
}

/// The normalized form of a topic or tag name: lowercased, spaces and `%20`
/// dashed, dots underscored, surrounding whitespace trimmed.
pub open spec fn normalized(s: Seq<char>) -> Seq<char> {
    trim_back(trim_front(underscore_dots(collapse_pct20(dash_spaces(lower_of(s))))))
}

fn is_space_c(c: char) -> (r: bool)
    ensures
        r == is_space(c),
{
    c == ' ' || c == '\t' || c == '\n' || c == '\r'
}

proof fn lemma_trim_front_skip(s: Seq<char>, k: int)
    requires
        0 <= k <= s.len(),
        forall|i: int| 0 <= i < k ==> is_space(s[i]),
        k == s.len() || !is_space(s[k]),
    ensures
        trim_front(s) == s.skip(k),
    decreases k,
{
    if k == 0 {
        assert(s.skip(0) =~= s);
    } else {
        assert(is_space(s[0]));
        let t = s.drop_first();
        assert(forall|i: int| 0 <= i < k - 1 ==> is_space(#[trigger] t[i]));
        lemma_trim_front_skip(t, k - 1);
        assert(t.skip(k - 1) =~= s.skip(k));
    }
}

proof fn lemma_trim_back_take(s: Seq<char>, k: int)
    requires
        0 <= k <= s.len(),
        forall|i: int| k <= i < s.len() ==> is_space(s[i]),
        k == 0 || !is_space(s[k - 1]),
    ensures
        trim_back(s) == s.take(k),
    decreases s.len() - k,
{
    if k == s.len() {
        assert(s.take(k) =~= s);
    } else {
        assert(is_space(s.last()));
        let t = s.drop_last();
        lemma_trim_back_take(t, k);
        assert(t.take(k) =~= s.take(k));
    }
}

/// Normalize a topic or tag name for use as a record key.
pub fn normalize_topic(topic: &str) -> (r: String)
    ensures
        r@ == normalized(topic@),
{
    let low = lower_chars(topic);
    let n = low.len();

    // spaces -> dashes
    let mut dashed: Vec<char> = Vec::new();
    let mut i: usize = 0;
    while i < n
        invariant
            i <= n,
            n == low@.len(),
            dashed@ == dash_spaces(low@.take(i as int)),
        decreases n - i,
    {
        let c = low[i];
        let d = if c == ' ' {
            '-'
        } else {
            c
        };
        proof {
            assert(dash_spaces(low@.take(i + 1)) =~= dash_spaces(low@.take(i as int)).push(
                if low@[i as int] == ' ' {
                    '-'
                } else {
                    low@[i as int]
                },
            ));
        }
        dashed.push(d);
        i += 1;
    }
    proof {
        assert(low@.take(n as int) =~= low@);
    }

    // %20 -> dash
    let ghost dv = dashed@;
    let dn = dashed.len();
    let mut collapsed: Vec<char> = Vec::new();
    let mut i: usize = 0;
    proof {
        assert(dv.skip(0) =~= dv);
    }
    while i < dn
        invariant
            i <= dn,
            dn == dv.len(),
            dv == dashed@,
            collapse_pct20(dv) == collapsed@ + collapse_pct20(dv.skip(i as int)),
        decreases dn - i,
    {
        let ghost rest = dv.skip(i as int);
        if dn - i > 2 && dashed[i] == '%' && dashed[i + 1] == '2' && dashed[i + 2] == '0' {
            proof {
                assert(rest[0] == dv[i as int]);
                assert(rest[1] == dv[i + 1]);
                assert(rest[2] == dv[i + 2]);
                assert(rest.skip(3) =~= dv.skip(i + 3));
                assert(collapse_pct20(rest) == seq!['-'] + collapse_pct20(dv.skip(i + 3)));
                assert(collapsed@.push('-') + collapse_pct20(dv.skip(i + 3)) =~= collapsed@ + (
                seq!['-'] + collapse_pct20(dv.skip(i + 3))));
            }
            collapsed.push('-');
            i += 3;
        } else {
            proof {
                assert(rest[0] == dv[i as int]);
                assert(rest.len() >= 3 ==> (rest[1] == dv[i + 1] && rest[2] == dv[i + 2]));
                assert(rest.skip(1) =~= dv.skip(i + 1));
                assert(collapse_pct20(rest) == seq![dv[i as int]] + collapse_pct20(dv.skip(i + 1)));
                assert(collapsed@.push(dv[i as int]) + collapse_pct20(dv.skip(i + 1)) =~= collapsed@
                    + (seq![dv[i as int]] + collapse_pct20(dv.skip(i + 1))));
            }
            let c = dashed[i];
            collapsed.push(c);
            i += 1;
        }
    }
    proof {
        assert(dv.skip(dn as int) =~= Seq::<char>::empty());
        assert(collapsed@ + Seq::<char>::empty() =~= collapsed@);
    }

    // dots -> underscores
    let cn = collapsed.len();
    let mut under: Vec<char> = Vec::new();
    let mut i: usize = 0;
    while i < cn
        invariant
            i <= cn,
            cn == collapsed@.len(),
            under@ == underscore_dots(collapsed@.take(i as int)),
        decreases cn - i,
    {
        let c = collapsed[i];
        let d = if c == '.' {
            '_'
        } else {
            c
        };
        proof {
            assert(underscore_dots(collapsed@.take(i + 1)) =~= underscore_dots(
                collapsed@.take(i as int),
            ).push(
                if collapsed@[i as int] == '.' {
                    '_'
                } else {
                    collapsed@[i as int]
                },
            ));
        }
        under.push(d);
        i += 1;
    }
    proof {
        assert(collapsed@.take(cn as int) =~= collapsed@);
    }

    // trim
    let un = under.len();
    let mut start: usize = 0;
    while start < un && is_space_c(under[start])
        invariant
            start <= un,
            un == under@.len(),
            forall|k: int| 0 <= k < start ==> is_space(under@[k]),
        decreases un - start,
    {
        start += 1;
    }
    proof {
        lemma_trim_front_skip(under@, start as int);
    }
    let ghost fronted = under@.skip(start as int);
    let mut end: usize = un;
    while end > start && is_space_c(under[end - 1])
        invariant
            start <= end <= un,
            un == under@.len(),
            forall|k: int| end <= k < un ==> is_space(under@[k]),
            forall|k: int| 0 <= k < start ==> is_space(under@[k]),
        decreases end,
    {
        end -= 1;
    }
    proof {
        assert(forall|k: int|
            end - start <= k < fronted.len() ==> is_space(#[trigger] fronted[k]));
        if end > start {
            assert(!is_space(fronted[end - start - 1]));
        } else {
            // everything from `start` on is whitespace, so the front trim
            // already consumed to `start` and the back trim removes the rest
            assert(end == start);
        }
        lemma_trim_back_take(fronted, end - start as int);
    }
    let mut out: Vec<char> = Vec::new();
    let mut i: usize = start;
    while i < end
        invariant
            start <= i <= end <= un,
            un == under@.len(),
            out@ == under@.skip(start as int).take(i - start as int),
        decreases end - i,
    {
        let c = under[i];
        proof {
            assert(under@.skip(start as int).take(i + 1 - start as int) =~= under@.skip(
                start as int,
            ).take(i - start as int).push(under@[i as int]));
        }
        out.push(c);
        i += 1;
    }
    proof {
        assert(trim_back(fronted) == fronted.take(end - start as int));
    }
    chars_to_string(&out)
}

} // verus!

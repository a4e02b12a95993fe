use vstd::prelude::*;

verus! {

/// The pieces of `s` between slashes, as `str::split('/')` gives them:
/// there is always at least one, and a slash at either end yields an empty piece.
pub open spec fn segments(s: Seq<char>) -> Seq<Seq<char>>
    decreases s.len(),
{
    if s.len() == 0 {
        seq![Seq::<char>::empty()]
    } else {
        let rest = segments(s.drop_first());
        if s[0] == '/' {
            seq![Seq::<char>::empty()] + rest
        } else {
            rest.update(0, seq![s[0]] + rest[0])
        }
    }
}

pub proof fn lemma_segments_nonempty(s: Seq<char>)
    ensures
        segments(s).len() >= 1,
    decreases s.len(),
{
    if s.len() > 0 {
        lemma_segments_nonempty(s.drop_first());
    }
}

/// Where `k` is just past the last slash of `s` (or zero), the last segment
/// of `s` is what follows `k`; there are two or more segments where `s` holds
/// a slash, else one.
pub proof fn lemma_last_segment(s: Seq<char>, k: int)
    requires
        0 <= k <= s.len(),
        k == 0 || s[k - 1] == '/',
        forall|j: int| k <= j < s.len() ==> s[j] != '/',
    ensures
        segments(s).len() >= 1,
        segments(s).last() == s.subrange(k, s.len() as int),
        k > 0 ==> segments(s).len() >= 2,
        k == 0 ==> segments(s).len() == 1,
    decreases s.len(),
{
    if s.len() == 0 {
        assert(s.subrange(0, 0) =~= s);
    } else {
        let t = s.drop_first();
        if k == 0 {
            lemma_last_segment(t, 0);
            assert(t.subrange(0, t.len() as int) =~= t);
            assert(seq![s[0]] + t =~= s);
            assert(s.subrange(0, s.len() as int) =~= s);
        } else {
            lemma_last_segment(t, k - 1);
            assert(t.subrange(k - 1, t.len() as int) =~= s.subrange(k, s.len() as int));
        }
    }
}

/// The name that `point` gives a field: its last piece after the final slash
/// (the whole of `point` if it has none). A pointer that is empty or ends in a
/// slash names nothing.
pub fn get_field_name(point: &str) -> (r: Option<&str>)
    ensures
        r is Some <==> segments(point@).last().len() > 0,
        r is Some ==> r->0@ == segments(point@).last(),
{
    let n = point.unicode_len();
    let mut i: usize = n;
    while i > 0
        invariant
            i <= n == point@.len(),
            forall|j: int| i <= j < n ==> point@[j] != '/',
        ensures
            i == 0 || point@[i - 1] == '/',
            forall|j: int| i <= j < n ==> point@[j] != '/',
        decreases i,
    {
        if point.get_char(i - 1) == '/' {
            break;
        }
        i = i - 1;
    }
    proof {
        lemma_last_segment(point@, i as int);
    }
    if i == n {
        return None;
    }
    Some(point.substring_char(i, n))
}

/// The character sequences of a list of strings.
pub open spec fn views(v: Seq<String>) -> Seq<Seq<char>> {
    v.map_values(|x: String| x@)
}

/// `s` with each occurrence of the pair `a b`, found left to right and
/// without overlap, replaced by the single character `r`.
pub open spec fn replace_pair(s: Seq<char>, a: char, b: char, r: char) -> Seq<char>
    decreases s.len(),
{
    if s.len() < 2 {
        s
    } else if s[0] == a && s[1] == b {
        seq![r] + replace_pair(s.subrange(2, s.len() as int), a, b, r)
    } else {
        seq![s[0]] + replace_pair(s.drop_first(), a, b, r)
    }
}

/// A reference token decoded: `~1` stands for `/`, then `~0` for `~`.
pub open spec fn unescape(t: Seq<char>) -> Seq<char> {
    replace_pair(replace_pair(t, '~', '1', '/'), '~', '0', '~')
}

/// The decoded reference tokens of a pointer: the pieces after its first slash.
pub open spec fn tokens(p: Seq<char>) -> Seq<Seq<char>> {
    segments(p).drop_first().map_values(|t: Seq<char>| unescape(t))
}

/// The pieces of `p` between slashes, in order.
fn split_segments(p: &str) -> (r: Vec<String>)
    ensures
        views(r@) == segments(p@),
{
    let n = p.unicode_len();
    let mut done: Vec<String> = Vec::new();
    let mut i: usize = n;
    let mut end: usize = n;
    proof {
        assert(p@.subrange(n as int, n as int) =~= Seq::<char>::empty());
        assert(views(done@) =~= Seq::<Seq<char>>::empty());
    }
    while i > 0
        invariant
            i <= end <= n == p@.len(),
            segments(p@.subrange(i as int, n as int)) =~= seq![p@.subrange(i as int, end as int)]
                + views(done@),
        decreases i,
    {
        let c = p.get_char(i - 1);
        let ghost old_done = done@;
        proof {
            assert(p@.subrange(i - 1, n as int).drop_first() =~= p@.subrange(i as int, n as int));
        }
        if c == '/' {
            let piece = String::from_str(p.substring_char(i, end));
            done.insert(0, piece);
            end = i - 1;
            proof {
                assert(views(done@) =~= seq![piece@] + views(old_done));
                assert(p@.subrange(i - 1, i - 1) =~= Seq::<char>::empty());
            }
        } else {
            proof {
                assert(seq![c] + p@.subrange(i as int, end as int) =~= p@.subrange(i - 1, end as int));
            }
        }
        i = i - 1;
    }
    let first = String::from_str(p.substring_char(0, end));
    let ghost old_done = done@;
    done.insert(0, first);
    proof {
        assert(p@.subrange(0, n as int) =~= p@);
        assert(views(done@) =~= seq![first@] + views(old_done));
    }
    done
}

/// `s` with each pair `a b` replaced by `r`, as `str::replace` does.
fn replace_pair_in(s: &str, a: char, b: char, r: &str) -> (out: String)
    requires
        r@.len() == 1,
    ensures
        out@ == replace_pair(s@, a, b, r@[0]),
{
    let n = s.unicode_len();
    let mut out = String::new();
    let mut i: usize = 0;
    proof {
        assert(s@.subrange(0, n as int) =~= s@);
        assert(out@ + replace_pair(s@, a, b, r@[0]) =~= replace_pair(s@, a, b, r@[0]));
    }
    while i < n
        invariant
            i <= n == s@.len(),
            r@.len() == 1,
            out@ + replace_pair(s@.subrange(i as int, n as int), a, b, r@[0]) == replace_pair(s@, a, b, r@[0]),
        decreases n - i,
    {
        let ghost rest = s@.subrange(i as int, n as int);
        let ghost prev = out@;
        if i + 1 < n && s.get_char(i) == a && s.get_char(i + 1) == b {
            out.append(r);
            proof {
                assert(rest.subrange(2, rest.len() as int) =~= s@.subrange(i + 2, n as int));
                assert(r@ =~= seq![r@[0]]);
                assert(out@ + replace_pair(s@.subrange(i + 2, n as int), a, b, r@[0])
                    =~= prev + replace_pair(rest, a, b, r@[0]));
            }
            i = i + 2;
        } else {
            out.append(s.substring_char(i, i + 1));
            proof {
                if rest.len() >= 2 {
                    assert(rest.drop_first() =~= s@.subrange(i + 1, n as int));
                    assert(out@ + replace_pair(s@.subrange(i + 1, n as int), a, b, r@[0])
                        =~= prev + replace_pair(rest, a, b, r@[0]));
                } else {
                    assert(s@.subrange(i + 1, n as int) =~= Seq::<char>::empty());
                    assert(out@ =~= prev + rest);
                }
            }
            i = i + 1;
        }
    }
    proof {
        assert(s@.subrange(n as int, n as int) =~= Seq::<char>::empty());
        assert(out@ =~= out@ + replace_pair(s@.subrange(n as int, n as int), a, b, r@[0]));
    }
    out
}

/// A reference token with its escapes decoded.
fn unescape_token(t: &str) -> (out: String)
    ensures
        out@ == unescape(t@),
{
    proof {
        reveal_strlit("/");
        reveal_strlit("~");
    }
    let once = replace_pair_in(t, '~', '1', "/");
    replace_pair_in(once.as_str(), '~', '0', "~")
}

pub open spec fn is_digit(c: char) -> bool {
    '0' <= c && c <= '9'
}

/// The number that a string of decimal digits spells.
pub open spec fn digits_value(s: Seq<char>) -> nat
    decreases s.len(),
{
    if s.len() == 0 {
        0
    } else {
        digits_value(s.drop_last()) * 10 + (s.last() as nat - '0' as nat) as nat
    }
}

/// The array position that a token names: decimal digits, with no leading
/// zero but for `0` itself, no sign, and a value that fits in `usize`.
pub open spec fn array_index(t: Seq<char>) -> Option<nat> {
    if t.len() > 0 && (forall|i: int| 0 <= i < t.len() ==> is_digit(#[trigger] t[i])) && !(t[0]
        == '0' && t.len() != 1) && digits_value(t) <= usize::MAX {
        Some(digits_value(t))
    } else {
        None
    }
}

proof fn lemma_prefix_value_le(s: Seq<char>, k: int)
    requires
        0 <= k <= s.len(),
        forall|i: int| 0 <= i < s.len() ==> is_digit(#[trigger] s[i]),
    ensures
        digits_value(s.subrange(0, k)) <= digits_value(s),
    decreases s.len(),
{
    if k == s.len() {
        assert(s.subrange(0, k) =~= s);
    } else {
        let t = s.drop_last();
        assert(forall|i: int| 0 <= i < t.len() ==> is_digit(#[trigger] t[i])) by {
            assert(forall|i: int| 0 <= i < t.len() ==> t[i] == s[i]);
        }
        lemma_prefix_value_le(t, k);
        assert(t.subrange(0, k) =~= s.subrange(0, k));
    }
}

/// The array position that `t` names, if it names one.
pub fn parse_index(t: &str) -> (r: Option<usize>)
    ensures
        match array_index(t@) {
            Some(k) => r == Some(k as usize),
            None => r is None,
        },
{
    let n = t.unicode_len();
    if n == 0 {
        return None;
    }
    if t.get_char(0) == '0' && n != 1 {
        return None;
    }
    let mut v: usize = 0;
    let mut i: usize = 0;
    while i < n
        invariant
            i <= n == t@.len(),
            forall|j: int| 0 <= j < i ==> is_digit(#[trigger] t@[j]),
            v as nat == digits_value(t@.subrange(0, i as int)),
        decreases n - i,
    {
        let c = t.get_char(i);
        if !('0' <= c && c <= '9') {
            assert(!is_digit(t@[i as int]));
            return None;
        }
        let d = (c as u32 - '0' as u32) as usize;
        assert(t@.subrange(0, i + 1).drop_last() =~= t@.subrange(0, i as int));
        if v > (usize::MAX - d) / 10 {
            proof {
                let s = t@;
                if forall|j: int| 0 <= j < s.len() ==> is_digit(#[trigger] s[j]) {
                    lemma_prefix_value_le(s, i + 1);
                }
            }
            return None;
        }
        v = v * 10 + d;
        i = i + 1;
    }
    assert(t@.subrange(0, n as int) =~= t@);
    Some(v)
}

/// The decoded reference tokens of `p`.
pub fn pointer_tokens(p: &str) -> (r: Vec<String>)
    ensures
        views(r@) == tokens(p@),
{
    let pieces = split_segments(p);
    let mut r: Vec<String> = Vec::new();
    let mut i: usize = 1;
    proof {
        lemma_segments_nonempty(p@);
    }
    while i < pieces.len()
        invariant
            1 <= i <= pieces@.len(),
            views(pieces@) == segments(p@),
            views(r@) =~= segments(p@).subrange(1, i as int).map_values(|t: Seq<char>| unescape(t)),
        decreases pieces@.len() - i,
    {
        let u = unescape_token(pieces[i].as_str());
        let ghost old_r = r@;
        r.push(u);
        proof {
            assert(pieces@[i as int]@ == segments(p@)[i as int]);
            assert(views(r@) =~= views(old_r) + seq![u@]);
            assert(segments(p@).subrange(1, i + 1).map_values(|t: Seq<char>| unescape(t))
                =~= segments(p@).subrange(1, i as int).map_values(|t: Seq<char>| unescape(t))
                + seq![unescape(segments(p@)[i as int])]);
        }
        i = i + 1;
    }
    proof {
        assert(segments(p@).subrange(1, i as int) =~= segments(p@).drop_first());
    }
    r
}

} // verus!

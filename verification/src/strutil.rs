use vstd::prelude::*;

verus! {

// Tags, file names and link paths are all character sequences; this module
// holds the character-level specifications the rest of the crate states its
// contracts over: lexicographic order, substring containment and decimal
// rendering, each with a verified executable counterpart.

/// Lexicographic order on character sequences, comparing code points.
/// `a` precedes `b` when `a` runs out first or its first differing
/// character has the smaller code point.
pub open spec fn str_le(a: Seq<char>, b: Seq<char>) -> bool
    decreases a.len(),
{
    if a.len() == 0 {
        true
    } else if b.len() == 0 {
        false
    } else if a[0] as u32 == b[0] as u32 {
        str_le(a.drop_first(), b.drop_first())
    } else {
        (a[0] as u32) < (b[0] as u32)
    }
}

/// `str_le` is total: of any two sequences, one precedes the other.
pub proof fn lemma_str_le_total(a: Seq<char>, b: Seq<char>)
    ensures
        str_le(a, b) || str_le(b, a),
    decreases a.len(),
{
    if a.len() > 0 && b.len() > 0 && a[0] as u32 == b[0] as u32 {
        lemma_str_le_total(a.drop_first(), b.drop_first());
    }
}

/// `str_le` is transitive.
pub proof fn lemma_str_le_trans(a: Seq<char>, b: Seq<char>, c: Seq<char>)
    requires
        str_le(a, b),
        str_le(b, c),
    ensures
        str_le(a, c),
    decreases a.len(),
{
    if a.len() > 0 && b.len() > 0 && c.len() > 0 {
        if a[0] as u32 == b[0] as u32 && b[0] as u32 == c[0] as u32 {
            lemma_str_le_trans(a.drop_first(), b.drop_first(), c.drop_first());
        }
    }
}

/// Decides `str_le` on two string slices.
pub fn str_le_exec(a: &str, b: &str) -> (r: bool)
    ensures
        r == str_le(a@, b@),
{
    let alen = a.unicode_len();
    let blen = b.unicode_len();
    let mut i: usize = 0;
    proof {
        assert(a@.skip(0) =~= a@);
        assert(b@.skip(0) =~= b@);
    }
    loop
        invariant
            i <= alen,
            i <= blen,
            alen == a@.len(),
            blen == b@.len(),
            str_le(a@, b@) == str_le(a@.skip(i as int), b@.skip(i as int)),
        decreases alen - i,
    {
        if i >= alen {
            return true;
        }
        if i >= blen {
            return false;
        }
        let ca = a.get_char(i);
        let cb = b.get_char(i);
        if ca as u32 == cb as u32 {
            proof {
                assert(a@.skip(i as int).drop_first() =~= a@.skip(i as int + 1));
                assert(b@.skip(i as int).drop_first() =~= b@.skip(i as int + 1));
            }
            i = i + 1;
        } else {
            return (ca as u32) < (cb as u32);
        }
    }
}

/// Decides whether two string slices hold the same characters.
pub fn str_eq_exec(a: &str, b: &str) -> (r: bool)
    ensures
        r == (a@ == b@),
{
    let alen = a.unicode_len();
    let blen = b.unicode_len();
    if alen != blen {
        return false;
    }
    let mut i: usize = 0;
    while i < alen
        invariant
            i <= alen,
            alen == a@.len(),
            alen == b@.len(),
            forall|k: int| 0 <= k < i ==> a@[k] == b@[k],
        decreases alen - i,
    {
        if a.get_char(i) != b.get_char(i) {
            return false;
        }
        i = i + 1;
    }
    proof {
        assert(a@ =~= b@);
    }
    true
}

/// `needle` occurs in `hay` starting at position `i`.
pub open spec fn str_has_at(hay: Seq<char>, needle: Seq<char>, i: int) -> bool {
    0 <= i && i + needle.len() <= hay.len() && hay.subrange(i, i + needle.len()) == needle
}

/// `needle` occurs somewhere in `hay`.
pub open spec fn str_has(hay: Seq<char>, needle: Seq<char>) -> bool {
    exists|i: int| str_has_at(hay, needle, i)
}

/// Decides whether `needle` occurs as a contiguous substring of `hay`.
pub fn str_has_exec(hay: &str, needle: &str) -> (r: bool)
    ensures
        r == str_has(hay@, needle@),
{
    let hlen = hay.unicode_len();
    let nlen = needle.unicode_len();
    if nlen > hlen {
        return false;
    }
    if nlen == 0 {
        proof {
            assert(hay@.subrange(0, 0) =~= needle@);
            assert(str_has_at(hay@, needle@, 0));
        }
        return true;
    }
    let mut i: usize = 0;
    while i <= hlen - nlen
        invariant
            0 < nlen <= hlen,
            hlen == hay@.len(),
            nlen == needle@.len(),
            i <= hlen - nlen + 1,
            forall|k: int| 0 <= k < i ==> !str_has_at(hay@, needle@, k),
        decreases hlen - i,
    {
        let mut j: usize = 0;
        let mut matched = true;
        while j < nlen
            invariant
                nlen <= hlen,
                hlen == hay@.len(),
                nlen == needle@.len(),
                i + nlen <= hlen,
                j <= nlen,
                matched ==> forall|k: int| 0 <= k < j ==> hay@[i + k] == needle@[k],
                !matched ==> !str_has_at(hay@, needle@, i as int),
            decreases nlen - j,
        {
            if matched {
                let ch = hay.get_char(i + j);
                let cn = needle.get_char(j);
                if ch != cn {
                    proof {
                        let sub = hay@.subrange(i as int, i + needle@.len());
                        assert(sub[j as int] == hay@[i + j]);
                        assert(sub != needle@);
                    }
                    matched = false;
                }
            }
            j = j + 1;
        }
        if matched {
            proof {
                let sub = hay@.subrange(i as int, i + needle@.len());
                assert(sub =~= needle@);
                assert(str_has_at(hay@, needle@, i as int));
            }
            return true;
        }
        i = i + 1;
    }
    proof {
        assert forall|k: int| str_has_at(hay@, needle@, k) implies false by {
            assert(0 <= k < i);
        }
    }
    false
}

/// The character for one decimal digit.
pub open spec fn digit_char(d: nat) -> char {
    if d == 0 {
        '0'
    } else if d == 1 {
        '1'
    } else if d == 2 {
        '2'
    } else if d == 3 {
        '3'
    } else if d == 4 {
        '4'
    } else if d == 5 {
        '5'
    } else if d == 6 {
        '6'
    } else if d == 7 {
        '7'
    } else if d == 8 {
        '8'
    } else {
        '9'
    }
}

/// The usual decimal rendering of a natural number, no leading zeros.
pub open spec fn dec_str(n: nat) -> Seq<char>
    decreases n,
{
    if n < 10 {
        seq![digit_char(n)]
    } else {
        dec_str(n / 10).push(digit_char(n % 10))
    }
}

fn digit_str(d: usize) -> (r: &'static str)
    requires
        d < 10,
    ensures
        r@ == seq![digit_char(d as nat)],
{
    let r: &'static str = if d == 0 {
        "0"
    } else if d == 1 {
        "1"
    } else if d == 2 {
        "2"
    } else if d == 3 {
        "3"
    } else if d == 4 {
        "4"
    } else if d == 5 {
        "5"
    } else if d == 6 {
        "6"
    } else if d == 7 {
        "7"
    } else if d == 8 {
        "8"
    } else {
        "9"
    };
    proof {
        reveal_strlit("0");
        reveal_strlit("1");
        reveal_strlit("2");
        reveal_strlit("3");
        reveal_strlit("4");
        reveal_strlit("5");
        reveal_strlit("6");
        reveal_strlit("7");
        reveal_strlit("8");
        reveal_strlit("9");
        assert(r@ =~= seq![digit_char(d as nat)]);
    }
    r
}

/// Renders a number in decimal.
pub fn usize_to_string(n: usize) -> (r: String)
    ensures
        r@ == dec_str(n as nat),
    decreases n,
{
    if n < 10 {
        String::from_str(digit_str(n))
    } else {
        let mut s = usize_to_string(n / 10);
        s.append(digit_str(n % 10));
        proof {
            assert(dec_str((n / 10) as nat) + seq![digit_char((n % 10) as nat)] =~= dec_str(
                n as nat,
            ));
        }
        s
    }
}

/// A sequence of tags in ascending lexicographic order.
pub open spec fn sorted_tags(s: Seq<Seq<char>>) -> bool {
    forall|i: int, j: int| 0 <= i < j < s.len() ==> str_le(s[i], s[j])
}

/// Sorts tags ascending. The result is a rearrangement of the input:
/// same tags, same multiplicities.
pub fn sort_strings(v: Vec<String>) -> (out: Vec<String>)
    ensures
        sorted_tags(out.deep_view()),
        out.deep_view().to_multiset() == v.deep_view().to_multiset(),
{
    let ghost orig = v.deep_view();
    let mut rest = v;
    let mut out: Vec<String> = Vec::new();
    let ghost n = orig.len();
    proof {
        broadcast use vstd::seq_lib::group_to_multiset_ensures;

        assert(out.deep_view() =~= Seq::<Seq<char>>::empty());
        assert(orig.skip(0) =~= orig);
        assert(out.deep_view().to_multiset().add(orig.skip(0).to_multiset()) =~= orig.to_multiset());
    }
    let mut i: usize = 0;
    while i < rest.len()
        invariant
            i <= rest.len(),
            rest.deep_view() == orig,
            sorted_tags(out.deep_view()),
            out.deep_view().to_multiset().add(orig.skip(i as int).to_multiset())
                == orig.to_multiset(),
            out.deep_view().len() == i,
        decreases rest.len() - i,
    {
        let x = rest[i].clone();
        let ghost xs = x@;
        let pos = insert_position(&out, &x);
        let ghost pre = out.deep_view();
        out.insert(pos, x);
        proof {
            broadcast use vstd::seq_lib::group_to_multiset_ensures;
            vstd::seq_lib::to_multiset_insert(pre, pos as int, xs);

            assert(out.deep_view() =~= pre.insert(pos as int, xs));
            assert(xs == orig[i as int]);
            assert(orig.skip(i as int) =~= orig.skip(i as int + 1).insert(0, orig[i as int]));
            vstd::seq_lib::to_multiset_insert(orig.skip(i as int + 1), 0, xs);
            assert(orig.skip(i as int).to_multiset() =~= orig.skip(
                i as int + 1,
            ).to_multiset().insert(xs));
            assert(out.deep_view().to_multiset() =~= pre.to_multiset().insert(xs));
            assert(out.deep_view().to_multiset().add(orig.skip(i as int + 1).to_multiset()) =~= pre
                .to_multiset().add(orig.skip(i as int).to_multiset()));
            assert(sorted_tags(out.deep_view())) by {
                let post = out.deep_view();
                assert forall|a: int, b: int| 0 <= a < b < post.len() implies str_le(
                    post[a],
                    post[b],
                ) by {
                    if b < pos {
                        assert(post[a] == pre[a] && post[b] == pre[b]);
                    } else if a > pos {
                        assert(post[a] == pre[a - 1] && post[b] == pre[b - 1]);
                    } else if a == pos && b > pos {
                        assert(post[b] == pre[b - 1]);
                    } else if b == pos {
                        assert(post[a] == pre[a]);
                    } else {
                        assert(a < pos && b > pos);
                        assert(post[a] == pre[a] && post[b] == pre[b - 1]);
                        lemma_str_le_trans(pre[a], xs, pre[b - 1]);
                    }
                }
            }
        }
        i = i + 1;
    }
    proof {
        broadcast use vstd::seq_lib::group_to_multiset_ensures;

        assert(orig.skip(i as int) =~= Seq::<Seq<char>>::empty());
        assert(out.deep_view().to_multiset().add(Seq::<Seq<char>>::empty().to_multiset()) =~= out
            .deep_view().to_multiset());
    }
    out
}

/// The position in the sorted vector `out` at which `x` belongs: everything
/// before it precedes `x`, and `x` precedes everything from it on.
fn insert_position(out: &Vec<String>, x: &String) -> (pos: usize)
    requires
        sorted_tags(out.deep_view()),
    ensures
        pos <= out.len(),
        forall|k: int| 0 <= k < pos ==> str_le(out.deep_view()[k], x@),
        forall|k: int| pos <= k < out.deep_view().len() ==> str_le(x@, out.deep_view()[k]),
{
    let mut pos: usize = 0;
    while pos < out.len()
        invariant
            pos <= out.len(),
            sorted_tags(out.deep_view()),
            forall|k: int| 0 <= k < pos ==> str_le(out.deep_view()[k], x@),
        decreases out.len() - pos,
    {
        if str_le_exec(out[pos].as_str(), x.as_str()) {
            pos = pos + 1;
        } else {
            proof {
                lemma_str_le_total(out.deep_view()[pos as int], x@);
                assert forall|k: int| pos <= k < out.deep_view().len() implies str_le(
                    x@,
                    out.deep_view()[k],
                ) by {
                    if k > pos {
                        lemma_str_le_trans(x@, out.deep_view()[pos as int], out.deep_view()[k]);
                    }
                }
            }
            return pos;
        }
    }
    pos
}

} // verus!

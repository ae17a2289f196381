//! Small operations on text that the rest of the crate compares and builds.
use vstd::prelude::*;

verus! {

/// Are the two texts the same?
pub fn text_eq(a: &str, b: &str) -> (r: bool)
    ensures
        r == (a@ == b@),
{
    let n = a.unicode_len();
    let m = b.unicode_len();
    if n != m {
        return false;
    }
    let mut i: usize = 0;
    while i < n
        invariant
            n == a@.len(),
            m == b@.len(),
            n == m,
            i <= n,
            a@.subrange(0, i as int) =~= b@.subrange(0, i as int),
        decreases n - i,
    {
        if a.get_char(i) != b.get_char(i) {
            return false;
        }
        proof {
            assert(a@.subrange(0, i + 1) =~= a@.subrange(0, i as int).push(a@[i as int]));
            assert(b@.subrange(0, i + 1) =~= b@.subrange(0, i as int).push(b@[i as int]));
        }
        i = i + 1;
    }
    assert(a@ =~= a@.subrange(0, n as int));
    assert(b@ =~= b@.subrange(0, n as int));
    true
}

/// `prefix` followed by `rest`.
pub fn concat(prefix: &str, rest: &str) -> (r: String)
    ensures
        r@ == prefix@ + rest@,
{
    let mut s = prefix.to_string();
    s.append(rest);
    s
}

/// The texts of `parts` joined with single spaces.
pub open spec fn join_spaced(parts: Seq<Seq<char>>) -> Seq<char>
    decreases parts.len(),
{
    if parts.len() == 0 {
        Seq::empty()
    } else if parts.len() == 1 {
        parts[0]
    } else {
        join_spaced(parts.drop_last()) + " "@ + parts.last()
    }
}

/// `parts.join(" ")`.
pub fn join_with_spaces(parts: &[&str]) -> (r: String)
    ensures
        r@ == join_spaced(parts@.map_values(|p: &str| p@)),
{
    let ghost views = parts@.map_values(|p: &str| p@);
    let mut s = String::new();
    let mut i: usize = 0;
    while i < parts.len()
        invariant
            i <= parts@.len(),
            views == parts@.map_values(|p: &str| p@),
            s@ == join_spaced(views.subrange(0, i as int)),
        decreases parts.len() - i,
    {
        if i > 0 {
            s.append(" ");
        }
        s.append(parts[i]);
        proof {
            let pre = views.subrange(0, i as int);
            let post = views.subrange(0, i + 1);
            assert(post.drop_last() =~= pre);
            if i == 0 {
                assert(post =~= seq![parts@[0]@]);
            }
        }
        i = i + 1;
    }
    assert(views.subrange(0, parts@.len() as int) =~= views);
    s
}

/// `s` blank-padded on the left to `width` characters (as `{:>width}`).
pub open spec fn pad_left(s: Seq<char>, width: nat) -> Seq<char> {
    if s.len() >= width {
        s
    } else {
        Seq::new((width - s.len()) as nat, |i: int| ' ') + s
    }
}

/// `s` blank-padded on the right to `width` characters (as `{:<width}`).
pub open spec fn pad_right(s: Seq<char>, width: nat) -> Seq<char> {
    if s.len() >= width {
        s
    } else {
        s + Seq::new((width - s.len()) as nat, |i: int| ' ')
    }
}

/// `count` copies of `c`.
pub open spec fn repeat(c: char, count: nat) -> Seq<char> {
    Seq::new(count, |i: int| c)
}

fn push_spaces(s: &mut String, count: usize)
    ensures
        final(s)@ == old(s)@ + repeat(' ', count as nat),
{
    let mut k: usize = 0;
    while k < count
        invariant
            k <= count,
            s@ == old(s)@ + repeat(' ', k as nat),
        decreases count - k,
    {
        s.append(" ");
        proof {
            reveal_strlit(" ");
            assert(old(s)@ + repeat(' ', (k + 1) as nat) =~= old(s)@ + repeat(' ', k as nat) + " "@);
        }
        k = k + 1;
    }
}

/// Appends `text` right-aligned in `width` characters.
pub fn push_padded_left(s: &mut String, text: &str, width: usize)
    ensures
        final(s)@ == old(s)@ + pad_left(text@, width as nat),
{
    let n = text.unicode_len();
    if n < width {
        push_spaces(s, width - n);
    }
    s.append(text);
    proof {
        if n < width {
            assert(old(s)@ + pad_left(text@, width as nat) =~= old(s)@ + repeat(' ', (width - n) as nat) + text@);
        }
    }
}

/// Appends `text` left-aligned in `width` characters.
pub fn push_padded_right(s: &mut String, text: &str, width: usize)
    ensures
        final(s)@ == old(s)@ + pad_right(text@, width as nat),
{
    let n = text.unicode_len();
    s.append(text);
    if n < width {
        push_spaces(s, width - n);
    }
    proof {
        if n < width {
            assert(old(s)@ + pad_right(text@, width as nat) =~= old(s)@ + text@ + repeat(' ', (width - n) as nat));
        }
    }
}

/// Appends `count` copies of `-`.
pub fn push_dashes(s: &mut String, count: usize)
    ensures
        final(s)@ == old(s)@ + repeat('-', count as nat),
{
    let mut k: usize = 0;
    while k < count
        invariant
            k <= count,
            s@ == old(s)@ + repeat('-', k as nat),
        decreases count - k,
    {
        s.append("-");
        proof {
            reveal_strlit("-");
            assert(old(s)@ + repeat('-', (k + 1) as nat) =~= old(s)@ + repeat('-', k as nat) + "-"@);
        }
        k = k + 1;
    }
}

} // verus!

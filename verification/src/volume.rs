//! Reading the free space of a volume from `df -Pk`.
//!
//! The POSIX output of `df -Pk` is a header line, then one line per volume
//! whose fourth blank-separated field is the space available, in 1024-byte
//! blocks.
use vstd::prelude::*;

use crate::config::{parse_chars, parse_unsigned};

verus! {

/// The segments of a text split at every `sep`.
pub open spec fn split_on(t: Seq<char>, sep: char) -> Seq<Seq<char>>
    decreases t.len(),
{
    if t.len() == 0 {
        seq![Seq::<char>::empty()]
    } else {
        let p = split_on(t.drop_last(), sep);
        if t.last() == sep {
            p.push(Seq::<char>::empty())
        } else {
            p.update(p.len() - 1, p.last().push(t.last()))
        }
    }
}

/// The non-empty segments, in order.
pub open spec fn non_empty(pcs: Seq<Seq<char>>) -> Seq<Seq<char>>
    decreases pcs.len(),
{
    if pcs.len() == 0 {
        seq![]
    } else if pcs.last().len() == 0 {
        non_empty(pcs.drop_last())
    } else {
        non_empty(pcs.drop_last()).push(pcs.last())
    }
}

/// Bytes available according to `df -Pk` output, if it reads as such.
pub open spec fn df_available(out: Seq<char>) -> Option<nat> {
    let lines = split_on(out, '\n');
    if lines.len() < 2 {
        None
    } else {
        let fields = non_empty(split_on(lines[1], ' '));
        if fields.len() < 4 {
            None
        } else {
            match parse_unsigned(fields[3]) {
                Some(k) => Some(k * 1024),
                None => None,
            }
        }
    }
}

proof fn lemma_split_nonempty(t: Seq<char>, sep: char)
    ensures
        split_on(t, sep).len() >= 1,
        split_on(t, sep).len() <= t.len() + 1,
    decreases t.len(),
{
    if t.len() > 0 {
        lemma_split_nonempty(t.drop_last(), sep);
    }
}

/// `t` split at every `sep`.
fn split_chars(t: &Vec<char>, sep: char) -> (r: Vec<Vec<char>>)
    ensures
        r@.map_values(|v: Vec<char>| v@) == split_on(t@, sep),
{
    let mut done: Vec<Vec<char>> = Vec::new();
    let mut cur: Vec<char> = Vec::new();
    let mut i: usize = 0;
    proof {
        assert(t@.subrange(0, 0) =~= Seq::<char>::empty());
        assert(done@.map_values(|v: Vec<char>| v@) =~= Seq::<Seq<char>>::empty());
    }
    while i < t.len()
        invariant
            i <= t.len(),
            done@.map_values(|v: Vec<char>| v@) == split_on(t@.subrange(0, i as int), sep).drop_last(),
            cur@ == split_on(t@.subrange(0, i as int), sep).last(),
        decreases t.len() - i,
    {
        let ghost pre = t@.subrange(0, i as int);
        let ghost post = t@.subrange(0, i + 1);
        let ghost old_done = done@.map_values(|v: Vec<char>| v@);
        proof {
            assert(post.drop_last() =~= pre);
            assert(post.last() == t@[i as int]);
            lemma_split_nonempty(pre, sep);
        }
        let c = t[i];
        if c == sep {
            let mut piece: Vec<char> = Vec::new();
            std::mem::swap(&mut piece, &mut cur);
            done.push(piece);
            proof {
                let p = split_on(pre, sep);
                assert(split_on(post, sep) == p.push(Seq::<char>::empty()));
                assert(done@.map_values(|v: Vec<char>| v@) =~= p.drop_last().push(p.last()));
                assert(p.drop_last().push(p.last()) =~= p);
                assert(split_on(post, sep).drop_last() =~= p);
            }
        } else {
            cur.push(c);
            proof {
                let p = split_on(pre, sep);
                assert(split_on(post, sep) == p.update(p.len() - 1, p.last().push(c)));
                assert(split_on(post, sep).drop_last() =~= p.drop_last());
            }
        }
        i = i + 1;
    }
    proof {
        assert(t@.subrange(0, t.len() as int) =~= t@);
        lemma_split_nonempty(t@, sep);
    }
    let ghost before = done@.map_values(|v: Vec<char>| v@);
    done.push(cur);
    proof {
        let p = split_on(t@, sep);
        assert(done@.map_values(|v: Vec<char>| v@) =~= before.push(p.last()));
        assert(p.drop_last().push(p.last()) =~= p);
    }
    done
}

/// The non-empty vectors, in order.
fn drop_empty(v: Vec<Vec<char>>) -> (r: Vec<Vec<char>>)
    ensures
        r@.map_values(|x: Vec<char>| x@) == non_empty(v@.map_values(|x: Vec<char>| x@)),
{
    let ghost all = v@.map_values(|x: Vec<char>| x@);
    let n = v.len();
    let mut input = v;
    let mut rev: Vec<Vec<char>> = Vec::new();
    while input.len() > 0
        invariant
            input.len() + rev.len() == n,
            n == all.len(),
            input@.map_values(|x: Vec<char>| x@) =~= all.subrange(0, input.len() as int),
            forall|k: int| 0 <= k < rev.len() ==> (#[trigger] rev@[k])@ == all[n - 1 - k],
        decreases input.len(),
    {
        let ghost before = input@.map_values(|x: Vec<char>| x@);
        let x = input.pop().unwrap();
        proof {
            assert(x@ == before[before.len() - 1]);
            assert(input@.map_values(|x: Vec<char>| x@) =~= before.drop_last());
        }
        rev.push(x);
    }
    let mut out: Vec<Vec<char>> = Vec::new();
    let mut i: usize = 0;
    proof {
        assert(all.subrange(0, 0) =~= Seq::<Seq<char>>::empty());
        assert(out@.map_values(|x: Vec<char>| x@) =~= Seq::<Seq<char>>::empty());
    }
    while rev.len() > 0
        invariant
            i + rev.len() == n,
            n == all.len(),
            forall|k: int| 0 <= k < rev.len() ==> (#[trigger] rev@[k])@ == all[n - 1 - k],
            out@.map_values(|x: Vec<char>| x@) == non_empty(all.subrange(0, i as int)),
        decreases rev.len(),
    {
        let x = rev.pop().unwrap();
        let ghost before = out@.map_values(|x: Vec<char>| x@);
        proof {
            assert(all.subrange(0, i + 1).drop_last() =~= all.subrange(0, i as int));
            assert(all.subrange(0, i + 1).last() == x@);
        }
        if x.len() > 0 {
            out.push(x);
            assert(out@.map_values(|x: Vec<char>| x@) =~= before.push(all[i as int]));
        }
        i = i + 1;
    }
    assert(all.subrange(0, n as int) =~= all);
    out
}

/// Bytes available on the volume, from the output of `df -Pk <volume>`.
pub fn free_bytes_from_df(output: &str) -> (r: Option<u64>)
    ensures
        match r {
            Some(v) => df_available(output@) == Some(v as nat),
            None => df_available(output@) is None || df_available(output@)->0 > u64::MAX,
        },
{
    let t = crate::paths::chars_of(output);
    let lines = split_chars(&t, '\n');
    if lines.len() < 2 {
        return None;
    }
    let ghost lv = lines@.map_values(|v: Vec<char>| v@);
    assert(lines@[1]@ == lv[1]);
    let fields = drop_empty(split_chars(&lines[1], ' '));
    if fields.len() < 4 {
        return None;
    }
    let ghost fv = fields@.map_values(|v: Vec<char>| v@);
    assert(fields@[3]@ == fv[3]);
    match parse_chars(&fields[3], u64::MAX / 1024) {
        Some(k) => {
            assert(k * 1024 <= u64::MAX);
            Some(k * 1024)
        },
        None => {
            proof {
                if parse_unsigned(fv[3]) is Some {
                    assert(parse_unsigned(fv[3])->0 > u64::MAX / 1024);
                    assert(parse_unsigned(fv[3])->0 * 1024 > u64::MAX) by (nonlinear_arith)
                        requires parse_unsigned(fv[3])->0 > u64::MAX / 1024;
                }
            }
            None
        },
    }
}

} // verus!

//! Unix paths as sequences of components.
//!
//! A path is held as its text. What the rest of the crate reads of it is its
//! component sequence: a leading root, a leading `.`, `..` and names, with
//! empty and interior `.` segments dropped. Nesting ("is `a` inside `b`") is a
//! prefix relation on components, and paths are ordered lexicographically by
//! component, a root before `.`, `.` before `..`, `..` before any name, and
//! names by character.
use vstd::prelude::*;

verus! {

/// One component of a path, as a mathematical value.
pub enum Component {
    Root,
    Cur,
    Parent,
    Name(Seq<char>),
}

/// One component of a path.
pub enum PathPart {
    Root,
    Cur,
    Parent,
    Name(Vec<char>),
}

impl PathPart {
    pub open spec fn comp(&self) -> Component {
        match self {
            PathPart::Root => Component::Root,
            PathPart::Cur => Component::Cur,
            PathPart::Parent => Component::Parent,
            PathPart::Name(n) => Component::Name(n@),
        }
    }
}

/// The components that a vector of parts stands for.
pub open spec fn parts_view(v: Seq<PathPart>) -> Seq<Component> {
    Seq::new(v.len(), |i: int| v[i].comp())
}

/// The segments of a text split at every `/` (as `str::split` does).
pub open spec fn pieces(t: Seq<char>) -> Seq<Seq<char>>
    decreases t.len(),
{
    if t.len() == 0 {
        seq![Seq::<char>::empty()]
    } else {
        let p = pieces(t.drop_last());
        if t.last() == '/' {
            p.push(Seq::<char>::empty())
        } else {
            p.update(p.len() - 1, p.last().push(t.last()))
        }
    }
}

/// What the segment at position `idx` contributes to the components.
pub open spec fn piece_component(piece: Seq<char>, idx: int) -> Option<Component> {
    if piece.len() == 0 {
        None
    } else if piece == seq!['.'] {
        if idx == 0 {
            Some(Component::Cur)
        } else {
            None
        }
    } else if piece == seq!['.', '.'] {
        Some(Component::Parent)
    } else {
        Some(Component::Name(piece))
    }
}

pub open spec fn comps_of_pieces(pcs: Seq<Seq<char>>) -> Seq<Component>
    decreases pcs.len(),
{
    if pcs.len() == 0 {
        seq![]
    } else {
        let prev = comps_of_pieces(pcs.drop_last());
        match piece_component(pcs.last(), pcs.len() - 1) {
            Some(c) => prev.push(c),
            None => prev,
        }
    }
}

pub open spec fn is_rooted(t: Seq<char>) -> bool {
    t.len() > 0 && t[0] == '/'
}

/// The components of a path text.
pub open spec fn components(t: Seq<char>) -> Seq<Component> {
    (if is_rooted(t) {
        seq![Component::Root]
    } else {
        seq![]
    }) + comps_of_pieces(pieces(t))
}

/// `a` is `b` or an ancestor of `b`.
pub open spec fn comps_prefix(a: Seq<Component>, b: Seq<Component>) -> bool {
    a.len() <= b.len() && b.subrange(0, a.len() as int) =~= a
}

pub open spec fn char_order(a: char, b: char) -> int {
    if (a as int) < (b as int) {
        -1
    } else if a == b {
        0
    } else {
        1
    }
}

/// Lexicographic comparison of character sequences: -1, 0 or 1.
pub open spec fn chars_order(a: Seq<char>, b: Seq<char>) -> int
    decreases a.len(),
{
    if a.len() == 0 {
        if b.len() == 0 {
            0
        } else {
            -1
        }
    } else if b.len() == 0 {
        1
    } else if char_order(a[0], b[0]) != 0 {
        char_order(a[0], b[0])
    } else {
        chars_order(a.drop_first(), b.drop_first())
    }
}

pub open spec fn comp_rank(c: Component) -> int {
    match c {
        Component::Root => 0,
        Component::Cur => 1,
        Component::Parent => 2,
        Component::Name(_) => 3,
    }
}

pub open spec fn comp_order(a: Component, b: Component) -> int {
    if comp_rank(a) < comp_rank(b) {
        -1
    } else if comp_rank(a) > comp_rank(b) {
        1
    } else {
        match (a, b) {
            (Component::Name(x), Component::Name(y)) => chars_order(x, y),
            _ => 0,
        }
    }
}

/// Lexicographic comparison of component sequences: -1, 0 or 1.
pub open spec fn comps_order(a: Seq<Component>, b: Seq<Component>) -> int
    decreases a.len(),
{
    if a.len() == 0 {
        if b.len() == 0 {
            0
        } else {
            -1
        }
    } else if b.len() == 0 {
        1
    } else if comp_order(a[0], b[0]) != 0 {
        comp_order(a[0], b[0])
    } else {
        comps_order(a.drop_first(), b.drop_first())
    }
}

pub open spec fn comps_le(a: Seq<Component>, b: Seq<Component>) -> bool {
    comps_order(a, b) <= 0
}

// ---------------------------------------------------------------------------
// Properties of the order
// ---------------------------------------------------------------------------

pub proof fn lemma_chars_order_props(a: Seq<char>, b: Seq<char>)
    ensures
        -1 <= chars_order(a, b) <= 1,
        chars_order(a, b) == -chars_order(b, a),
        chars_order(a, b) == 0 <==> a == b,
    decreases a.len(),
{
    if a.len() > 0 && b.len() > 0 {
        lemma_chars_order_props(a.drop_first(), b.drop_first());
        if char_order(a[0], b[0]) == 0 && chars_order(a.drop_first(), b.drop_first()) == 0 {
            assert(a =~= seq![a[0]] + a.drop_first());
            assert(b =~= seq![b[0]] + b.drop_first());
        }
        if a == b {
            assert(a.drop_first() == b.drop_first());
        }
    } else if a.len() == 0 && b.len() == 0 {
        assert(a =~= b);
    }
}

pub proof fn lemma_chars_order_trans(a: Seq<char>, b: Seq<char>, c: Seq<char>)
    requires
        chars_order(a, b) <= 0,
        chars_order(b, c) <= 0,
    ensures
        chars_order(a, c) <= 0,
    decreases a.len(),
{
    if a.len() > 0 && b.len() > 0 && c.len() > 0 {
        if char_order(a[0], b[0]) == 0 && char_order(b[0], c[0]) == 0 {
            lemma_chars_order_trans(a.drop_first(), b.drop_first(), c.drop_first());
        }
    }
}

pub proof fn lemma_comp_order_props(a: Component, b: Component)
    ensures
        -1 <= comp_order(a, b) <= 1,
        comp_order(a, b) == -comp_order(b, a),
        comp_order(a, b) == 0 <==> a == b,
{
    match (a, b) {
        (Component::Name(x), Component::Name(y)) => {
            lemma_chars_order_props(x, y);
        },
        _ => {},
    }
}

pub proof fn lemma_comp_order_trans(a: Component, b: Component, c: Component)
    requires
        comp_order(a, b) <= 0,
        comp_order(b, c) <= 0,
    ensures
        comp_order(a, c) <= 0,
{
    lemma_comp_order_props(a, b);
    lemma_comp_order_props(b, c);
    lemma_comp_order_props(a, c);
    match (a, b, c) {
        (Component::Name(x), Component::Name(y), Component::Name(z)) => {
            lemma_chars_order_trans(x, y, z);
        },
        _ => {},
    }
}

pub proof fn lemma_comps_order_props(a: Seq<Component>, b: Seq<Component>)
    ensures
        -1 <= comps_order(a, b) <= 1,
        comps_order(a, b) == -comps_order(b, a),
        comps_order(a, b) == 0 <==> a == b,
    decreases a.len(),
{
    if a.len() > 0 && b.len() > 0 {
        lemma_comp_order_props(a[0], b[0]);
        lemma_comps_order_props(a.drop_first(), b.drop_first());
        if comp_order(a[0], b[0]) == 0 && comps_order(a.drop_first(), b.drop_first()) == 0 {
            assert(a =~= seq![a[0]] + a.drop_first());
            assert(b =~= seq![b[0]] + b.drop_first());
        }
        if a == b {
            assert(a.drop_first() == b.drop_first());
        }
    } else if a.len() == 0 && b.len() == 0 {
        assert(a =~= b);
    }
}

pub proof fn lemma_comps_order_trans(a: Seq<Component>, b: Seq<Component>, c: Seq<Component>)
    requires
        comps_order(a, b) <= 0,
        comps_order(b, c) <= 0,
    ensures
        comps_order(a, c) <= 0,
    decreases a.len(),
{
    if a.len() > 0 && b.len() > 0 && c.len() > 0 {
        lemma_comp_order_props(a[0], b[0]);
        lemma_comp_order_props(b[0], c[0]);
        lemma_comp_order_props(a[0], c[0]);
        lemma_comp_order_trans(a[0], b[0], c[0]);
        if comp_order(a[0], b[0]) == 0 && comp_order(b[0], c[0]) == 0 {
            lemma_comps_order_trans(a.drop_first(), b.drop_first(), c.drop_first());
        }
    } else if a.len() > 0 && b.len() > 0 {
        lemma_comps_order_props(b, c);
    }
}

/// An ancestor sorts no later than its descendants.
pub proof fn lemma_prefix_le(a: Seq<Component>, b: Seq<Component>)
    requires
        comps_prefix(a, b),
    ensures
        comps_le(a, b),
    decreases a.len(),
{
    if a.len() > 0 {
        assert(a[0] == b[0]);
        lemma_comp_order_props(a[0], b[0]);
        assert(b.drop_first().subrange(0, a.drop_first().len() as int) =~= a.drop_first());
        lemma_prefix_le(a.drop_first(), b.drop_first());
    }
}

pub proof fn lemma_prefix_trans(a: Seq<Component>, b: Seq<Component>, c: Seq<Component>)
    requires
        comps_prefix(a, b),
        comps_prefix(b, c),
    ensures
        comps_prefix(a, c),
{
    assert(c.subrange(0, a.len() as int) =~= b.subrange(0, a.len() as int));
}

/// Sequences that agree on their first `i` elements compare as their rests do.
proof fn lemma_comps_order_skip(a: Seq<Component>, b: Seq<Component>, i: int)
    requires
        0 <= i <= a.len(),
        i <= b.len(),
        a.subrange(0, i) =~= b.subrange(0, i),
    ensures
        comps_order(a, b) == comps_order(a.subrange(i, a.len() as int), b.subrange(i, b.len() as int)),
    decreases i,
{
    if i > 0 {
        lemma_comp_order_props(a[0], b[0]);
        assert(a[0] == a.subrange(0, i)[0]);
        assert(b[0] == b.subrange(0, i)[0]);
        assert(a.drop_first().subrange(0, i - 1) =~= b.drop_first().subrange(0, i - 1)) by {
            assert forall|k: int| 0 <= k < i - 1 implies a.drop_first()[k] == b.drop_first()[k] by {
                assert(a.subrange(0, i)[k + 1] == b.subrange(0, i)[k + 1]);
            }
        }
        lemma_comps_order_skip(a.drop_first(), b.drop_first(), i - 1);
        assert(a.drop_first().subrange(i - 1, a.drop_first().len() as int) =~= a.subrange(
            i,
            a.len() as int,
        ));
        assert(b.drop_first().subrange(i - 1, b.drop_first().len() as int) =~= b.subrange(
            i,
            b.len() as int,
        ));
    } else {
        assert(a.subrange(0, a.len() as int) =~= a);
        assert(b.subrange(0, b.len() as int) =~= b);
    }
}

proof fn lemma_chars_order_skip(a: Seq<char>, b: Seq<char>, i: int)
    requires
        0 <= i <= a.len(),
        i <= b.len(),
        a.subrange(0, i) =~= b.subrange(0, i),
    ensures
        chars_order(a, b) == chars_order(a.subrange(i, a.len() as int), b.subrange(i, b.len() as int)),
    decreases i,
{
    if i > 0 {
        assert(a[0] == a.subrange(0, i)[0]);
        assert(b[0] == b.subrange(0, i)[0]);
        assert(a.drop_first().subrange(0, i - 1) =~= b.drop_first().subrange(0, i - 1)) by {
            assert forall|k: int| 0 <= k < i - 1 implies a.drop_first()[k] == b.drop_first()[k] by {
                assert(a.subrange(0, i)[k + 1] == b.subrange(0, i)[k + 1]);
            }
        }
        lemma_chars_order_skip(a.drop_first(), b.drop_first(), i - 1);
        assert(a.drop_first().subrange(i - 1, a.drop_first().len() as int) =~= a.subrange(
            i,
            a.len() as int,
        ));
        assert(b.drop_first().subrange(i - 1, b.drop_first().len() as int) =~= b.subrange(
            i,
            b.len() as int,
        ));
    } else {
        assert(a.subrange(0, a.len() as int) =~= a);
        assert(b.subrange(0, b.len() as int) =~= b);
    }
}

// ---------------------------------------------------------------------------
// Executable operations
// ---------------------------------------------------------------------------

/// The characters of a text.
pub fn chars_of(s: &str) -> (r: Vec<char>)
    ensures
        r@ == s@,
{
    let n = s.unicode_len();
    let mut r: Vec<char> = Vec::new();
    let mut i: usize = 0;
    while i < n
        invariant
            n == s@.len(),
            i <= n,
            r@ =~= s@.subrange(0, i as int),
        decreases n - i,
    {
        let c = s.get_char(i);
        r.push(c);
        i = i + 1;
    }
    r
}

fn part_of_piece(piece: Vec<char>, idx: usize) -> (r: Option<PathPart>)
    ensures
        match r {
            Some(p) => piece_component(piece@, idx as int) == Some(p.comp()),
            None => piece_component(piece@, idx as int) is None,
        },
{
    let n = piece.len();
    if n == 0 {
        None
    } else if n == 1 && piece[0] == '.' {
        assert(piece@ =~= seq!['.']);
        if idx == 0 {
            Some(PathPart::Cur)
        } else {
            None
        }
    } else if n == 2 && piece[0] == '.' && piece[1] == '.' {
        assert(piece@ =~= seq!['.', '.']);
        Some(PathPart::Parent)
    } else {
        assert(piece@ != seq!['.']) by {
            if piece@ == seq!['.'] {
                assert(piece@[0] == '.');
            }
        }
        assert(piece@ != seq!['.', '.']) by {
            if piece@ == seq!['.', '.'] {
                assert(piece@[0] == '.' && piece@[1] == '.');
            }
        }
        Some(PathPart::Name(piece))
    }
}

proof fn lemma_pieces_nonempty(t: Seq<char>)
    ensures
        pieces(t).len() >= 1,
    decreases t.len(),
{
    if t.len() > 0 {
        lemma_pieces_nonempty(t.drop_last());
    }
}

/// The components of a path text (as `Path::components` gives them on Unix).
pub fn path_parts(s: &str) -> (r: Vec<PathPart>)
    ensures
        parts_view(r@) == components(s@),
{
    let t = chars_of(s);
    let n = t.len();
    let mut parts: Vec<PathPart> = Vec::new();
    let rooted = n > 0 && t[0] == '/';
    if rooted {
        parts.push(PathPart::Root);
    }
    let ghost root_seq: Seq<Component> = if rooted {
        seq![Component::Root]
    } else {
        seq![]
    };
    assert(parts_view(parts@) =~= root_seq);
    let mut cur: Vec<char> = Vec::new();
    let mut idx: usize = 0;
    let mut i: usize = 0;
    proof {
        assert(t@.subrange(0, 0) =~= Seq::<char>::empty());
    }
    while i < n
        invariant
            n == t@.len(),
            t@ == s@,
            i <= n,
            rooted == is_rooted(t@),
            root_seq == (if rooted {
                seq![Component::Root]
            } else {
                seq![]
            }),
            idx as int == pieces(t@.subrange(0, i as int)).len() - 1,
            cur@ == pieces(t@.subrange(0, i as int)).last(),
            parts_view(parts@) == root_seq + comps_of_pieces(
                pieces(t@.subrange(0, i as int)).drop_last(),
            ),
        decreases n - i,
    {
        let ghost pre = t@.subrange(0, i as int);
        let ghost post = t@.subrange(0, i + 1);
        proof {
            assert(post.drop_last() =~= pre);
            lemma_pieces_nonempty(pre);
        }
        let c = t[i];
        if c == '/' {
            let ghost old_parts = parts_view(parts@);
            let ghost pc = pieces(pre);
            assert(pieces(post) == pc.push(Seq::<char>::empty()));
            assert(pieces(post).drop_last() =~= pc);
            assert(pc.drop_last() =~= pc.subrange(0, pc.len() - 1));
            let mut piece: Vec<char> = Vec::new();
            std::mem::swap(&mut piece, &mut cur);
            let p = part_of_piece(piece, idx);
            match p {
                Some(part) => {
                    parts.push(part);
                    assert(parts_view(parts@) =~= old_parts.push(part.comp()));
                },
                None => {
                    assert(parts_view(parts@) =~= old_parts);
                },
            }
            assert(idx < usize::MAX) by {
                lemma_pieces_len_bound(pre);
            }
            idx = idx + 1;
            assert(cur@ =~= pieces(post).last());
        } else {
            let ghost pc = pieces(pre);
            cur.push(c);
            assert(pieces(post) == pc.update(pc.len() - 1, pc.last().push(c)));
            assert(pieces(post).drop_last() =~= pc.drop_last());
        }
        i = i + 1;
    }
    proof {
        assert(t@.subrange(0, n as int) =~= t@);
        lemma_pieces_nonempty(t@);
    }
    let ghost pc = pieces(t@);
    let ghost old_parts = parts_view(parts@);
    let p = part_of_piece(cur, idx);
    match p {
        Some(part) => {
            parts.push(part);
            assert(parts_view(parts@) =~= old_parts.push(part.comp()));
        },
        None => {
            assert(parts_view(parts@) =~= old_parts);
        },
    }
    assert(pc.drop_last().push(pc.last()) =~= pc);
    assert(comps_of_pieces(pc) == match piece_component(pc.last(), pc.len() - 1) {
        Some(c) => comps_of_pieces(pc.drop_last()).push(c),
        None => comps_of_pieces(pc.drop_last()),
    });
    assert(parts_view(parts@) =~= components(s@));
    parts
}

proof fn lemma_pieces_len_bound(t: Seq<char>)
    ensures
        pieces(t).len() <= t.len() + 1,
    decreases t.len(),
{
    if t.len() > 0 {
        lemma_pieces_len_bound(t.drop_last());
        lemma_pieces_nonempty(t.drop_last());
    }
}

fn chars_order_exec(a: &Vec<char>, b: &Vec<char>) -> (r: i8)
    ensures
        r as int == chars_order(a@, b@),
{
    let mut i: usize = 0;
    while i < a.len() && i < b.len() && a[i] == b[i]
        invariant
            i <= a.len(),
            i <= b.len(),
            a@.subrange(0, i as int) =~= b@.subrange(0, i as int),
        decreases a.len() - i,
    {
        proof {
            assert(a@.subrange(0, i + 1) =~= a@.subrange(0, i as int).push(a@[i as int]));
            assert(b@.subrange(0, i + 1) =~= b@.subrange(0, i as int).push(b@[i as int]));
        }
        i = i + 1;
    }
    proof {
        lemma_chars_order_skip(a@, b@, i as int);
    }
    let ghost ra = a@.subrange(i as int, a@.len() as int);
    let ghost rb = b@.subrange(i as int, b@.len() as int);
    if i == a.len() {
        if i == b.len() {
            0
        } else {
            -1
        }
    } else if i == b.len() {
        1
    } else {
        assert(ra[0] == a@[i as int]);
        assert(rb[0] == b@[i as int]);
        if a[i] < b[i] {
            -1
        } else {
            1
        }
    }
}

fn comp_order_exec(a: &PathPart, b: &PathPart) -> (r: i8)
    ensures
        r as int == comp_order(a.comp(), b.comp()),
{
    let ra: u8 = match a {
        PathPart::Root => 0,
        PathPart::Cur => 1,
        PathPart::Parent => 2,
        PathPart::Name(_) => 3,
    };
    let rb: u8 = match b {
        PathPart::Root => 0,
        PathPart::Cur => 1,
        PathPart::Parent => 2,
        PathPart::Name(_) => 3,
    };
    if ra < rb {
        -1
    } else if ra > rb {
        1
    } else {
        match (a, b) {
            (PathPart::Name(x), PathPart::Name(y)) => chars_order_exec(x, y),
            _ => 0,
        }
    }
}

/// Compares two texts character by character: -1, 0 or 1.
pub fn text_order(a: &str, b: &str) -> (r: i8)
    ensures
        r as int == chars_order(a@, b@),
{
    let x = chars_of(a);
    let y = chars_of(b);
    chars_order_exec(&x, &y)
}

/// Compares two component sequences the way `Path` orders paths.
pub fn parts_order(a: &Vec<PathPart>, b: &Vec<PathPart>) -> (r: i8)
    ensures
        r as int == comps_order(parts_view(a@), parts_view(b@)),
{
    let ghost va = parts_view(a@);
    let ghost vb = parts_view(b@);
    let mut i: usize = 0;
    while i < a.len() && i < b.len()
        invariant
            va == parts_view(a@),
            vb == parts_view(b@),
            i <= a.len(),
            i <= b.len(),
            va.subrange(0, i as int) =~= vb.subrange(0, i as int),
        decreases a.len() - i,
    {
        let c = comp_order_exec(&a[i], &b[i]);
        if c != 0 {
            proof {
                lemma_comps_order_skip(va, vb, i as int);
                let ra = va.subrange(i as int, va.len() as int);
                let rb = vb.subrange(i as int, vb.len() as int);
                assert(ra[0] == va[i as int]);
                assert(rb[0] == vb[i as int]);
            }
            return c;
        }
        proof {
            lemma_comp_order_props(va[i as int], vb[i as int]);
            assert(va.subrange(0, i + 1) =~= va.subrange(0, i as int).push(va[i as int]));
            assert(vb.subrange(0, i + 1) =~= vb.subrange(0, i as int).push(vb[i as int]));
        }
        i = i + 1;
    }
    proof {
        lemma_comps_order_skip(va, vb, i as int);
    }
    if i == a.len() {
        if i == b.len() {
            0
        } else {
            -1
        }
    } else {
        1
    }
}

/// Is `a` the same path as `b` or an ancestor of it (as `Path::starts_with`)?
pub fn parts_prefix(a: &Vec<PathPart>, b: &Vec<PathPart>) -> (r: bool)
    ensures
        r == comps_prefix(parts_view(a@), parts_view(b@)),
{
    let ghost va = parts_view(a@);
    let ghost vb = parts_view(b@);
    if a.len() > b.len() {
        return false;
    }
    let mut i: usize = 0;
    while i < a.len()
        invariant
            va == parts_view(a@),
            vb == parts_view(b@),
            a.len() <= b.len(),
            i <= a.len(),
            va.subrange(0, i as int) =~= vb.subrange(0, i as int),
        decreases a.len() - i,
    {
        let c = comp_order_exec(&a[i], &b[i]);
        proof {
            lemma_comp_order_props(va[i as int], vb[i as int]);
        }
        if c != 0 {
            proof {
                assert(vb.subrange(0, va.len() as int)[i as int] == vb[i as int]);
            }
            return false;
        }
        proof {
            assert(va.subrange(0, i + 1) =~= va.subrange(0, i as int).push(va[i as int]));
            assert(vb.subrange(0, i + 1) =~= vb.subrange(0, i as int).push(vb[i as int]));
        }
        i = i + 1;
    }
    proof {
        assert(va.subrange(0, a.len() as int) =~= va);
    }
    true
}

proof fn lemma_pieces_concat(a: Seq<char>, b: Seq<char>)
    ensures
        pieces(a + b) == pieces(a).drop_last() + seq![pieces(a).last() + pieces(b)[0]] + pieces(
            b,
        ).drop_first(),
    decreases b.len(),
{
    lemma_pieces_nonempty(a);
    lemma_pieces_nonempty(b);
    let pa = pieces(a);
    if b.len() == 0 {
        assert(a + b =~= a);
        assert(pieces(b) == seq![Seq::<char>::empty()]);
        assert(pa.last() + Seq::<char>::empty() =~= pa.last());
        assert(pa.drop_last() + seq![pa.last()] =~= pa);
        assert(pieces(b).drop_first() =~= Seq::<Seq<char>>::empty());
        assert(pa.drop_last() + seq![pa.last() + pieces(b)[0]] + pieces(b).drop_first() =~= pa);
    } else {
        let b0 = b.drop_last();
        let c = b.last();
        lemma_pieces_concat(a, b0);
        lemma_pieces_nonempty(b0);
        assert((a + b).drop_last() =~= a + b0);
        assert((a + b).last() == c);
        let pb0 = pieces(b0);
        let p0 = pieces(a + b0);
        assert(p0 == pa.drop_last() + seq![pa.last() + pb0[0]] + pb0.drop_first());
        if c == '/' {
            assert(pieces(b) == pb0.push(Seq::<char>::empty()));
            assert(pieces(a + b) == p0.push(Seq::<char>::empty()));
            assert(pieces(b)[0] == pb0[0]);
            assert(pieces(b).drop_first() =~= pb0.drop_first().push(Seq::<char>::empty()));
            assert(pieces(a + b) =~= pa.drop_last() + seq![pa.last() + pieces(b)[0]] + pieces(b).drop_first());
        } else {
            assert(pieces(b) == pb0.update(pb0.len() - 1, pb0.last().push(c)));
            assert(pieces(a + b) == p0.update(p0.len() - 1, p0.last().push(c)));
            if pb0.len() == 1 {
                assert(pieces(b)[0] == pb0[0].push(c));
                assert(pa.last() + pb0[0].push(c) =~= (pa.last() + pb0[0]).push(c));
                assert(pieces(b).drop_first() =~= Seq::<Seq<char>>::empty());
                assert(pb0.drop_first() =~= Seq::<Seq<char>>::empty());
                assert(pieces(a + b) =~= pa.drop_last() + seq![pa.last() + pieces(b)[0]] + pieces(b).drop_first());
            } else {
                assert(pieces(b)[0] == pb0[0]);
                assert(pieces(b).drop_first() =~= pb0.drop_first().update(
                    pb0.len() - 2,
                    pb0.last().push(c),
                ));
                assert(pieces(a + b) =~= pa.drop_last() + seq![pa.last() + pieces(b)[0]] + pieces(b).drop_first());
            }
        }
    }
}

proof fn lemma_comps_of_pieces_prefix(p: Seq<Seq<char>>, q: Seq<Seq<char>>)
    ensures
        comps_prefix(comps_of_pieces(p), comps_of_pieces(p + q)),
    decreases q.len(),
{
    if q.len() == 0 {
        assert(p + q =~= p);
        let c = comps_of_pieces(p);
        assert(c.subrange(0, c.len() as int) =~= c);
    } else {
        lemma_comps_of_pieces_prefix(p, q.drop_last());
        assert((p + q).drop_last() =~= p + q.drop_last());
        let c = comps_of_pieces(p);
        let mid = comps_of_pieces(p + q.drop_last());
        let all = comps_of_pieces(p + q);
        assert(all.subrange(0, mid.len() as int) =~= mid || all =~= mid);
        assert(all.subrange(0, c.len() as int) =~= mid.subrange(0, c.len() as int));
    }
}

/// A relative location pushed onto a path stays inside it: the path's
/// components are a prefix of the result's.
pub proof fn lemma_relative_join_stays_inside(home: Seq<char>, sub: Seq<char>, joined: Seq<char>)
    requires
        !is_rooted(sub),
        joined == if home.len() > 0 && home.last() != '/' {
            home + seq!['/'] + sub
        } else {
            home + sub
        },
    ensures
        comps_prefix(components(home), components(joined)),
{
    lemma_pieces_nonempty(home);
    lemma_pieces_nonempty(sub);
    let ph = pieces(home);
    let ps = pieces(sub);
    if home.len() == 0 {
        assert(ph == seq![Seq::<char>::empty()]);
        assert(comps_of_pieces(ph) =~= comps_of_pieces(ph.drop_last()));
        assert(components(home) =~= Seq::<Component>::empty());
    } else {
        assert(joined[0] == home[0]);
        let root: Seq<Component> = if is_rooted(home) {
            seq![Component::Root]
        } else {
            seq![]
        };
        if home.last() != '/' {
            let hs = home + seq!['/'];
            assert(hs.drop_last() =~= home);
            assert(pieces(hs) == ph.push(Seq::<char>::empty()));
            lemma_pieces_concat(hs, sub);
            assert(joined =~= hs + sub);
            assert(Seq::<char>::empty() + ps[0] =~= ps[0]);
            assert(pieces(joined) =~= ph + ps);
            lemma_comps_of_pieces_prefix(ph, ps);
        } else {
            assert(ph == pieces(home.drop_last()).push(Seq::<char>::empty()));
            lemma_pieces_concat(home, sub);
            assert(Seq::<char>::empty() + ps[0] =~= ps[0]);
            assert(ph.last() + ps[0] =~= ps[0]);
            assert(pieces(joined) =~= ph.drop_last() + (seq![ps[0]] + ps.drop_first()));
            assert(comps_of_pieces(ph) == comps_of_pieces(ph.drop_last()));
            lemma_comps_of_pieces_prefix(ph.drop_last(), seq![ps[0]] + ps.drop_first());
        }
        assert(components(home) == root + comps_of_pieces(ph));
        assert(components(joined) == root + comps_of_pieces(pieces(joined)));
    }
}

} // verus!

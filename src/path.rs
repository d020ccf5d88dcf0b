//! Paths as lists of components, in the way of `std::path`: a leading `/` is
//! the root, a leading `.` the current directory, `..` the parent, and every
//! other non-empty piece between separators a name. Empty pieces and `.`
//! elsewhere are no components. Paths are ordered, and prefixes stripped,
//! component by component.
use vstd::prelude::*;

use crate::text::{
    chars_lt, lemma_chars_lt_asymmetric, lemma_chars_lt_irreflexive, lemma_chars_lt_total,
    lemma_chars_lt_transitive, text_eq, text_lt,
};

verus! {

/// One component of a path.
pub enum Component {
    Root,
    CurDir,
    ParentDir,
    Normal(Seq<char>),
}

/// Whether a piece between separators is a component.
pub open spec fn is_kept(piece: Seq<char>) -> bool {
    piece.len() > 0 && piece != seq!['.']
}

pub open spec fn component_of(piece: Seq<char>) -> Component {
    if piece == seq!['.', '.'] {
        Component::ParentDir
    } else {
        Component::Normal(piece)
    }
}

/// Reading `p` left to right: the components of its finished pieces, and
/// the piece after its last separator.
pub open spec fn scan(p: Seq<char>) -> (Seq<Component>, Seq<char>)
    decreases p.len(),
{
    if p.len() == 0 {
        (Seq::empty(), Seq::empty())
    } else {
        let (done, piece) = scan(p.drop_last());
        if p.last() == '/' {
            (
                if is_kept(piece) {
                    done.push(component_of(piece))
                } else {
                    done
                },
                Seq::empty(),
            )
        } else {
            (done, piece.push(p.last()))
        }
    }
}

/// The component that starts `p` before its pieces: the root, or the current
/// directory for a relative path that starts with `.` as a piece of its own.
pub open spec fn head(p: Seq<char>) -> Seq<Component> {
    if p.len() > 0 && p[0] == '/' {
        seq![Component::Root]
    } else if p == seq!['.'] || (p.len() >= 2 && p[0] == '.' && p[1] == '/') {
        seq![Component::CurDir]
    } else {
        Seq::empty()
    }
}

/// The components of `p`.
pub open spec fn components(p: Seq<char>) -> Seq<Component> {
    let (done, piece) = scan(p);
    head(p) + if is_kept(piece) {
        done.push(component_of(piece))
    } else {
        done
    }
}

pub open spec fn component_rank(c: Component) -> nat {
    match c {
        Component::Root => 0,
        Component::CurDir => 1,
        Component::ParentDir => 2,
        Component::Normal(_) => 3,
    }
}

/// Order of components: root, current, parent, then names by character.
pub open spec fn component_lt(a: Component, b: Component) -> bool {
    component_rank(a) < component_rank(b) || (a is Normal && b is Normal && chars_lt(
        a->Normal_0,
        b->Normal_0,
    ))
}

/// Lexicographic order on lists of components; a list comes before its
/// extensions.
pub open spec fn components_lt(a: Seq<Component>, b: Seq<Component>) -> bool
    decreases a.len(),
{
    if a.len() == 0 {
        b.len() > 0
    } else if b.len() == 0 {
        false
    } else if a[0] != b[0] {
        component_lt(a[0], b[0])
    } else {
        components_lt(a.drop_first(), b.drop_first())
    }
}

/// Order of paths, component by component.
pub open spec fn path_lt(a: Seq<char>, b: Seq<char>) -> bool {
    components_lt(components(a), components(b))
}

pub proof fn lemma_component_order(a: Component, b: Component, c: Component)
    ensures
        !component_lt(a, a),
        component_lt(a, b) ==> !component_lt(b, a),
        a == b || component_lt(a, b) || component_lt(b, a),
        component_lt(a, b) && component_lt(b, c) ==> component_lt(a, c),
{
    if let Component::Normal(x) = a {
        lemma_chars_lt_irreflexive(x);
        if let Component::Normal(y) = b {
            lemma_chars_lt_total(x, y);
            if chars_lt(x, y) {
                lemma_chars_lt_asymmetric(x, y);
            }
            if let Component::Normal(z) = c {
                if chars_lt(x, y) && chars_lt(y, z) {
                    lemma_chars_lt_transitive(x, y, z);
                }
            }
        }
    }
}

pub proof fn lemma_components_lt_irreflexive(a: Seq<Component>)
    ensures
        !components_lt(a, a),
    decreases a.len(),
{
    if a.len() > 0 {
        lemma_components_lt_irreflexive(a.drop_first());
    }
}

pub proof fn lemma_components_lt_total(a: Seq<Component>, b: Seq<Component>)
    ensures
        a == b || components_lt(a, b) || components_lt(b, a),
    decreases a.len(),
{
    if a.len() > 0 && b.len() > 0 && a[0] == b[0] {
        lemma_components_lt_total(a.drop_first(), b.drop_first());
        if a.drop_first() == b.drop_first() {
            assert(a =~= seq![a[0]] + a.drop_first());
            assert(b =~= seq![b[0]] + b.drop_first());
        }
    } else if a.len() == 0 && b.len() == 0 {
        assert(a =~= b);
    } else if a.len() > 0 && b.len() > 0 {
        lemma_component_order(a[0], b[0], a[0]);
    }
}

pub proof fn lemma_components_lt_asymmetric(a: Seq<Component>, b: Seq<Component>)
    requires
        components_lt(a, b),
    ensures
        !components_lt(b, a),
    decreases a.len(),
{
    if a.len() > 0 && b.len() > 0 {
        if a[0] == b[0] {
            lemma_components_lt_asymmetric(a.drop_first(), b.drop_first());
        } else {
            lemma_component_order(a[0], b[0], a[0]);
        }
    }
}

pub proof fn lemma_components_lt_transitive(
    a: Seq<Component>,
    b: Seq<Component>,
    c: Seq<Component>,
)
    requires
        components_lt(a, b),
        components_lt(b, c),
    ensures
        components_lt(a, c),
    decreases a.len(),
{
    if a.len() > 0 && b.len() > 0 && c.len() > 0 {
        lemma_component_order(a[0], b[0], c[0]);
        lemma_component_order(a[0], c[0], b[0]);
        lemma_component_order(b[0], a[0], c[0]);
        if a[0] == b[0] && b[0] == c[0] {
            lemma_components_lt_transitive(a.drop_first(), b.drop_first(), c.drop_first());
        }
    }
}

/// A component found in a path: names are kept as the character range
/// `start..end` of the path.
pub enum Part {
    Root,
    CurDir,
    ParentDir,
    Normal { start: usize, end: usize },
}

pub open spec fn part_view(part: Part, p: Seq<char>) -> Component {
    match part {
        Part::Root => Component::Root,
        Part::CurDir => Component::CurDir,
        Part::ParentDir => Component::ParentDir,
        Part::Normal { start, end } => Component::Normal(p.subrange(start as int, end as int)),
    }
}

pub open spec fn part_fits(part: Part, p: Seq<char>) -> bool {
    match part {
        Part::Normal { start, end } => start <= end <= p.len(),
        _ => true,
    }
}

pub open spec fn parts_view(parts: Seq<Part>, p: Seq<char>) -> Seq<Component> {
    parts.map_values(|x: Part| part_view(x, p))
}

pub open spec fn parts_fit(parts: Seq<Part>, p: Seq<char>) -> bool {
    forall|k: int| 0 <= k < parts.len() ==> part_fits(#[trigger] parts[k], p)
}

/// The part for the piece `start..end` of `p`, if it is a component.
fn piece_part(p: &str, start: usize, end: usize) -> (r: Option<Part>)
    requires
        start <= end <= p@.len(),
    ensures
        is_kept(p@.subrange(start as int, end as int)) <==> r is Some,
        r matches Some(part) ==> part_fits(part, p@) && part_view(part, p@) == component_of(
            p@.subrange(start as int, end as int),
        ),
{
    let ghost piece = p@.subrange(start as int, end as int);
    if end == start {
        return None;
    }
    let c0 = p.get_char(start);
    if end - start == 1 && c0 == '.' {
        assert(piece =~= seq!['.']);
        return None;
    }
    if end - start == 2 && c0 == '.' && p.get_char(start + 1) == '.' {
        assert(piece =~= seq!['.', '.']);
        return Some(Part::ParentDir);
    }
    proof {
        if end - start == 1 {
            assert(piece[0] == c0);
        }
        if end - start == 2 {
            assert(piece[0] == c0);
            assert(piece[1] == p@[start + 1]);
        }
    }
    Some(Part::Normal { start, end })
}

/// The components of `p`.
pub fn path_parts(p: &str) -> (r: Vec<Part>)
    ensures
        parts_view(r@, p@) == components(p@),
        parts_fit(r@, p@),
{
    let n = p.unicode_len();
    let mut parts: Vec<Part> = Vec::new();
    if n > 0 && p.get_char(0) == '/' {
        parts.push(Part::Root);
    } else if (n == 1 && p.get_char(0) == '.') || (n >= 2 && p.get_char(0) == '.' && p.get_char(1)
        == '/') {
        parts.push(Part::CurDir);
    }
    proof {
        if n == 1 && p@[0] == '.' {
            assert(p@ =~= seq!['.']);
        }
    }
    let ghost hd = head(p@);
    assert(parts_view(parts@, p@) =~= hd);
    assert(p@.take(0) =~= Seq::<char>::empty());
    let mut start: usize = 0;
    let mut i: usize = 0;
    while i < n
        invariant
            n == p@.len(),
            hd == head(p@),
            start <= i <= n,
            parts_fit(parts@, p@),
            parts_view(parts@, p@) == hd + scan(p@.take(i as int)).0,
            p@.subrange(start as int, i as int) == scan(p@.take(i as int)).1,
        decreases n - i,
    {
        let ghost before = parts@;
        assert(p@.take(i + 1).drop_last() =~= p@.take(i as int));
        assert(p@.take(i + 1).last() == p@[i as int]);
        if p.get_char(i) == '/' {
            match piece_part(p, start, i) {
                Some(part) => {
                    parts.push(part);
                    assert(parts_view(parts@, p@) =~= parts_view(before, p@).push(part_view(part, p@)));
                },
                None => {},
            }
            start = i + 1;
            assert(p@.subrange(start as int, i + 1) =~= Seq::<char>::empty());
        } else {
            assert(p@.subrange(start as int, i + 1) =~= p@.subrange(start as int, i as int).push(p@[i as int]));
        }
        i = i + 1;
    }
    assert(p@.take(n as int) =~= p@);
    let ghost before = parts@;
    match piece_part(p, start, n) {
        Some(part) => {
            parts.push(part);
            assert(parts_view(parts@, p@) =~= parts_view(before, p@).push(part_view(part, p@)));
        },
        None => {},
    }
    assert(parts_view(parts@, p@) =~= components(p@));
    parts
}

/// The name of a `Normal` part, as text.
fn part_name<'a>(p: &'a str, part: &Part) -> (r: &'a str)
    requires
        part is Normal,
        part_fits(*part, p@),
    ensures
        Component::Normal(r@) == part_view(*part, p@),
{
    match part {
        Part::Normal { start, end } => p.substring_char(*start, *end),
        _ => p,
    }
}

fn part_less(a: &str, pa: &Part, b: &str, pb: &Part) -> (r: (bool, bool))
    requires
        part_fits(*pa, a@),
        part_fits(*pb, b@),
    ensures
        r.0 == component_lt(part_view(*pa, a@), part_view(*pb, b@)),
        r.1 == (part_view(*pa, a@) == part_view(*pb, b@)),
{
    let ra: u8 = match pa {
        Part::Root => 0,
        Part::CurDir => 1,
        Part::ParentDir => 2,
        Part::Normal { .. } => 3,
    };
    let rb: u8 = match pb {
        Part::Root => 0,
        Part::CurDir => 1,
        Part::ParentDir => 2,
        Part::Normal { .. } => 3,
    };
    if ra != rb {
        return (ra < rb, false);
    }
    if ra < 3 {
        return (false, true);
    }
    let na = part_name(a, pa);
    let nb = part_name(b, pb);
    proof {
        lemma_chars_lt_irreflexive(na@);
    }
    (text_lt(na, nb), text_eq(na, nb))
}

/// Compares two paths component by component.
pub fn path_less(a: &str, b: &str) -> (r: bool)
    ensures
        r == path_lt(a@, b@),
{
    let pa = path_parts(a);
    let pb = path_parts(b);
    let ghost ca = components(a@);
    let ghost cb = components(b@);
    assert(path_lt(a@, b@) == components_lt(ca, cb));
    assert(ca.skip(0) =~= ca);
    assert(cb.skip(0) =~= cb);
    assert(ca.len() == pa@.len() && cb.len() == pb@.len());
    let mut k: usize = 0;
    while k < pa.len() && k < pb.len()
        invariant
            ca == parts_view(pa@, a@),
            ca == components(a@),
            cb == components(b@),
            cb == parts_view(pb@, b@),
            parts_fit(pa@, a@),
            parts_fit(pb@, b@),
            ca.len() == pa@.len(),
            cb.len() == pb@.len(),
            k <= pa@.len(),
            k <= pb@.len(),
            components_lt(ca, cb) == components_lt(ca.skip(k as int), cb.skip(k as int)),
        decreases pa@.len() - k,
    {
        let (lt, eq) = part_less(a, &pa[k], b, &pb[k]);
        assert(ca[k as int] == part_view(pa@[k as int], a@));
        assert(cb[k as int] == part_view(pb@[k as int], b@));
        assert(ca.skip(k as int)[0] == ca[k as int]);
        assert(cb.skip(k as int)[0] == cb[k as int]);
        if !eq {
            assert(ca.skip(k as int).len() > 0 && cb.skip(k as int).len() > 0);
            assert(ca.skip(k as int)[0] != cb.skip(k as int)[0]);
            assert(components_lt(ca.skip(k as int), cb.skip(k as int)) == component_lt(
                ca[k as int],
                cb[k as int],
            ));
            return lt;
        }
        assert(ca.skip(k as int).drop_first() =~= ca.skip(k + 1));
        assert(cb.skip(k as int).drop_first() =~= cb.skip(k + 1));
        k = k + 1;
    }
    k == pa.len() && k < pb.len()
}

/// How a component is written.
pub open spec fn component_text(c: Component) -> Seq<char> {
    match c {
        Component::Root => Seq::empty(),
        Component::CurDir => seq!['.'],
        Component::ParentDir => seq!['.', '.'],
        Component::Normal(name) => name,
    }
}

/// `cs` written as a path: components joined by `/`, the root as a leading
/// `/`.
pub open spec fn join_components(cs: Seq<Component>) -> Seq<char>
    decreases cs.len(),
{
    if cs.len() == 0 {
        Seq::empty()
    } else if cs.len() == 1 {
        if cs[0] is Root {
            seq!['/']
        } else {
            component_text(cs[0])
        }
    } else {
        join_components(cs.drop_last()) + (if cs.drop_last() == seq![Component::Root] {
            Seq::empty()
        } else {
            seq!['/']
        }) + component_text(cs.last())
    }
}

/// `path` named relative to `root`: where the components of `root` begin
/// those of `path`, the components that follow them; otherwise `path` itself.
pub open spec fn relative_to(path: Seq<char>, root: Seq<char>) -> Seq<char> {
    let cp = components(path);
    let cr = components(root);
    if cr.is_prefix_of(cp) {
        join_components(cp.skip(cr.len() as int))
    } else {
        path
    }
}

/// Writes the components `parts[from..]` of `p` as a path.
fn join_parts(p: &str, parts: &Vec<Part>, from: usize) -> (r: String)
    requires
        from <= parts@.len(),
        parts_fit(parts@, p@),
    ensures
        r@ == join_components(parts_view(parts@, p@).skip(from as int)),
{
    proof {
        reveal_strlit("/");
        reveal_strlit(".");
        reveal_strlit("..");
    }
    let ghost v = parts_view(parts@, p@);
    let mut text = String::new();
    let mut j: usize = from;
    assert(v.subrange(from as int, from as int) =~= Seq::<Component>::empty());
    while j < parts.len()
        invariant
            from <= j <= parts@.len(),
            v == parts_view(parts@, p@),
            parts_fit(parts@, p@),
            text@ == join_components(v.subrange(from as int, j as int)),
        decreases parts@.len() - j,
    {
        let ghost s = v.subrange(from as int, j + 1);
        assert(s.drop_last() =~= v.subrange(from as int, j as int));
        assert(s.last() == part_view(parts@[j as int], p@));
        let part = &parts[j];
        let ghost prev = text@;
        proof {
            reveal_strlit("/");
            reveal_strlit(".");
            reveal_strlit("..");
        }
        if j == from {
            assert(s.len() == 1);
            assert(s[0] == s.last());
            match part {
                Part::Root => text.append("/"),
                Part::CurDir => text.append("."),
                Part::ParentDir => text.append(".."),
                Part::Normal { .. } => {
                    let name = part_name(p, part);
                    text.append(name);
                },
            }
        } else {
            let first_is_root = match &parts[from] {
                Part::Root => true,
                _ => false,
            };
            let after_root = j == from + 1 && first_is_root;
            proof {
                assert(v[from as int] == part_view(parts@[from as int], p@));
                assert(s[0] == v[from as int]);
                if after_root {
                    assert(s.drop_last() =~= seq![Component::Root]);
                } else if s.drop_last() == seq![Component::Root] {
                    assert(s.drop_last().len() == 1);
                    assert(s.drop_last()[0] == s[0]);
                }
            }
            assert(s.len() >= 2);
            if !after_root {
                text.append("/");
            }
            let ghost sep = text@.skip(prev.len() as int);
            assert(sep =~= if s.drop_last() == seq![Component::Root] {
                Seq::<char>::empty()
            } else {
                seq!['/']
            });
            match part {
                Part::Root => {},
                Part::CurDir => text.append("."),
                Part::ParentDir => text.append(".."),
                Part::Normal { .. } => {
                    let name = part_name(p, part);
                    text.append(name);
                },
            }
        }
        assert(text@ =~= join_components(s));
        j = j + 1;
    }
    assert(v.subrange(from as int, j as int) =~= v.skip(from as int));
    text
}

/// Names `path` relative to `root`, component by component.
pub fn relative_path(path: &str, root: &str) -> (r: String)
    ensures
        r@ == relative_to(path@, root@),
{
    let pp = path_parts(path);
    let pr = path_parts(root);
    let ghost cp = components(path@);
    let ghost cr = components(root@);
    assert(cp.len() == pp@.len() && cr.len() == pr@.len());
    if pr.len() > pp.len() {
        return String::from_str(path);
    }
    let mut k: usize = 0;
    while k < pr.len()
        invariant
            cp == parts_view(pp@, path@),
            cr == parts_view(pr@, root@),
            cp == components(path@),
            cr == components(root@),
            parts_fit(pp@, path@),
            parts_fit(pr@, root@),
            cp.len() == pp@.len(),
            cr.len() == pr@.len(),
            pr@.len() <= pp@.len(),
            k <= pr@.len(),
            forall|m: int| 0 <= m < k ==> cr[m] == cp[m],
        decreases pr@.len() - k,
    {
        let (_, eq) = part_less(root, &pr[k], path, &pp[k]);
        assert(cr[k as int] == part_view(pr@[k as int], root@));
        assert(cp[k as int] == part_view(pp@[k as int], path@));
        if !eq {
            assert(cp.subrange(0, cr.len() as int)[k as int] == cp[k as int]);
            return String::from_str(path);
        }
        k = k + 1;
    }
    assert(cr =~= cp.subrange(0, cr.len() as int));
    join_parts(path, &pp, pr.len())
}

} // verus!

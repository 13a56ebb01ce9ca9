//! File paths held as `/`-separated text: joining, components, ordering, deduplication.
use vstd::prelude::*;
use vstd::string::StrSliceExecFns;
use crate::graph::join_text;
use crate::text::{
    lemma_lex_irreflexive, lemma_lex_total, lemma_lex_transitive, lemma_text_irreflexive,
    lemma_text_total, lemma_text_transitive, lex_lt, push_text, str_eq, str_lt, str_to_string, strict_total_order,
    strs, text_lt,
};

verus! {

/// `p` joined onto `base` (as `PathBuf::push` does on Unix): an absolute `p` replaces `base`,
/// otherwise a separator is added unless `base` is empty or already ends with one.
pub open spec fn join_path_text(base: Seq<char>, p: Seq<char>) -> Seq<char> {
    if p.len() > 0 && p[0] == '/' {
        p
    } else if base.len() == 0 || base.last() == '/' {
        base + p
    } else {
        base + seq!['/'] + p
    }
}

/// Joins `p` onto `base`.
pub fn join_path(base: &str, p: &str) -> (res: String)
    ensures
        res@ == join_path_text(base@, p@),
{
    let pl = p.unicode_len();
    if pl > 0 && p.get_char(0) == '/' {
        return str_to_string(p);
    }
    let bl = base.unicode_len();
    let mut out = str_to_string(base);
    if bl > 0 && base.get_char(bl - 1) != '/' {
        out.push('/');
    }
    push_text(&mut out, p);
    proof {
        if bl > 0 {
            assert(base@.last() == base@[bl - 1]);
        }
    }
    out
}

/// The parts of `s` between `/` separators (empty parts included).
pub open spec fn segments(s: Seq<char>) -> Seq<Seq<char>>
    decreases s.len(),
{
    if s.len() == 0 {
        seq![Seq::empty()]
    } else {
        let r = segments(s.drop_last());
        if s.last() == '/' {
            r.push(Seq::empty())
        } else {
            r.update(r.len() - 1, r.last().push(s.last()))
        }
    }
}

proof fn lemma_segments_nonempty(s: Seq<char>)
    ensures
        segments(s).len() >= 1,
    decreases s.len(),
{
    if s.len() > 0 {
        lemma_segments_nonempty(s.drop_last());
    }
}

/// Joining the parts with `/` gives the text back.
pub proof fn lemma_join_segments(s: Seq<char>)
    ensures
        join_text(segments(s), seq!['/']) == s,
    decreases s.len(),
{
    if s.len() > 0 {
        let r = segments(s.drop_last());
        lemma_segments_nonempty(s.drop_last());
        lemma_join_segments(s.drop_last());
        if s.last() == '/' {
            let r2 = r.push(Seq::empty());
            assert(r2.drop_last() =~= r);
            assert(join_text(r2, seq!['/']) =~= s);
        } else {
            let r2 = r.update(r.len() - 1, r.last().push(s.last()));
            if r.len() == 1 {
                assert(join_text(r2, seq!['/']) =~= s);
            } else {
                assert(r2.drop_last() =~= r.drop_last());
                let sep = seq!['/'];
                assert(join_text(r, sep) == join_text(r.drop_last(), sep) + sep + r.last());
                assert(join_text(r2, sep) == join_text(r.drop_last(), sep) + sep + r.last().push(s.last()));
                assert(s =~= s.drop_last().push(s.last()));
                assert(join_text(r2, sep) =~= s);
            }
        }
    }
}

/// Splits a path into its `/`-separated parts.
pub fn split_segments(s: &str) -> (res: Vec<String>)
    ensures
        strs(res@) == segments(s@),
{
    let n = s.unicode_len();
    let mut done: Vec<String> = Vec::new();
    let mut cur = String::new();
    let mut i: usize = 0;
    while i < n
        invariant
            n == s@.len(),
            i <= n,
            strs(done@).push(cur@) == segments(s@.take(i as int)),
        decreases n - i,
    {
        let c = s.get_char(i);
        assert(s@.take(i + 1).drop_last() =~= s@.take(i as int));
        let ghost r = segments(s@.take(i as int));
        if c == '/' {
            let ghost prev = done@;
            done.push(cur);
            cur = String::new();
            assert(strs(done@).push(cur@) =~= r.push(Seq::empty()));
        } else {
            cur.push(c);
            assert(strs(done@).push(cur@) =~= r.update(r.len() - 1, r.last().push(c)));
        }
        i = i + 1;
    }
    assert(s@.take(n as int) =~= s@);
    let ghost prev = done@;
    done.push(cur);
    assert(strs(done@) =~= strs(prev).push(done@.last()@));
    done
}

/// One component of a path, as `Path::components` gives it on Unix: the root, a leading `.`,
/// a `..`, or a name.
pub enum PathPart {
    Root,
    Cur,
    Parent,
    Name(Seq<char>),
}

pub open spec fn part_rank(p: PathPart) -> int {
    match p {
        PathPart::Root => 0,
        PathPart::Cur => 1,
        PathPart::Parent => 2,
        PathPart::Name(_) => 3,
    }
}

/// The order of components: the root, then `.`, then `..`, then names, which compare as text.
pub open spec fn part_lt(a: PathPart, b: PathPart) -> bool {
    match (a, b) {
        (PathPart::Name(x), PathPart::Name(y)) => text_lt(x, y),
        _ => part_rank(a) < part_rank(b),
    }
}

pub open spec fn part_order() -> spec_fn(PathPart, PathPart) -> bool {
    |a: PathPart, b: PathPart| part_lt(a, b)
}

proof fn lemma_part_order()
    ensures
        strict_total_order(part_order()),
{
    assert forall|x: PathPart| !#[trigger] part_order()(x, x) by {
        if let PathPart::Name(t) = x {
            lemma_text_irreflexive(t);
        }
    }
    assert forall|x: PathPart, y: PathPart, z: PathPart| #[trigger] part_order()(x, y) && #[trigger] part_order()(
        y,
        z,
    ) implies part_order()(x, z) by {
        if let (PathPart::Name(a), PathPart::Name(b), PathPart::Name(c)) = (x, y, z) {
            lemma_text_transitive(a, b, c);
        }
    }
    assert forall|x: PathPart, y: PathPart| x != y implies #[trigger] part_order()(x, y) || #[trigger] part_order()(
        y,
        x,
    ) by {
        if let (PathPart::Name(a), PathPart::Name(b)) = (x, y) {
            lemma_text_total(a, b);
        }
    }
}

/// The components of the parts between separators: empty parts and `.` are left out, `..` is
/// the parent, anything else a name.
pub open spec fn parts_of(segs: Seq<Seq<char>>) -> Seq<PathPart>
    decreases segs.len(),
{
    if segs.len() == 0 {
        Seq::empty()
    } else {
        let r = parts_of(segs.drop_last());
        let s = segs.last();
        if s.len() == 0 || s == "."@ {
            r
        } else if s == ".."@ {
            r.push(PathPart::Parent)
        } else {
            r.push(PathPart::Name(s))
        }
    }
}

/// The components of a path (`Path::components` on Unix): the root when it starts with `/`, a
/// `.` only when it is the first part of a relative path, then the remaining parts, with
/// repeated separators, inner `.` parts and a trailing separator ignored.
pub open spec fn path_parts(p: Seq<char>) -> Seq<PathPart> {
    let segs = segments(p);
    if p.len() > 0 && p[0] == '/' {
        seq![PathPart::Root] + parts_of(segs)
    } else if segs[0] == "."@ {
        seq![PathPart::Cur] + parts_of(segs.drop_first())
    } else {
        parts_of(segs)
    }
}

/// The order of paths (that of `Path`'s `Ord`): component by component.
pub open spec fn path_lt(a: Seq<char>, b: Seq<char>) -> bool {
    lex_lt(path_parts(a), path_parts(b), part_order())
}

/// Two paths are equal as `Path`s: they have the same components.
pub open spec fn same_path(a: Seq<char>, b: Seq<char>) -> bool {
    path_parts(a) == path_parts(b)
}

pub proof fn lemma_path_irreflexive(a: Seq<char>)
    ensures
        !path_lt(a, a),
{
    lemma_lex_irreflexive(path_parts(a), part_order());
}

pub proof fn lemma_path_transitive(a: Seq<char>, b: Seq<char>, c: Seq<char>)
    requires
        path_lt(a, b),
        path_lt(b, c),
    ensures
        path_lt(a, c),
{
    lemma_part_order();
    lemma_lex_transitive(path_parts(a), path_parts(b), path_parts(c), part_order());
}

pub proof fn lemma_path_total(a: Seq<char>, b: Seq<char>)
    requires
        !same_path(a, b),
    ensures
        path_lt(a, b) || path_lt(b, a),
{
    lemma_part_order();
    lemma_lex_total(path_parts(a), path_parts(b), part_order());
}

/// A path component held by the program.
pub enum PathComponent {
    RootDir,
    CurDir,
    ParentDir,
    Normal(String),
}

pub open spec fn component_view(c: PathComponent) -> PathPart {
    match c {
        PathComponent::RootDir => PathPart::Root,
        PathComponent::CurDir => PathPart::Cur,
        PathComponent::ParentDir => PathPart::Parent,
        PathComponent::Normal(s) => PathPart::Name(s@),
    }
}

pub open spec fn components_view(v: Seq<PathComponent>) -> Seq<PathPart> {
    v.map_values(|c: PathComponent| component_view(c))
}

/// The components of a path.
pub fn path_components(s: &str) -> (res: Vec<PathComponent>)
    ensures
        components_view(res@) == path_parts(s@),
{
    let segs = split_segments(s);
    proof {
        lemma_segments_nonempty(s@);
    }
    let mut res: Vec<PathComponent> = Vec::new();
    let mut k: usize = 0;
    let n = s.unicode_len();
    if n > 0 && s.get_char(0) == '/' {
        res.push(PathComponent::RootDir);
    } else if str_eq(segs[0].as_str(), ".") {
        res.push(PathComponent::CurDir);
        k = 1;
    }
    let ghost start = k as int;
    let ghost head = components_view(res@);
    assert(components_view(res@) =~= head + parts_of(strs(segs@).subrange(start, k as int)));
    while k < segs.len()
        invariant
            strs(segs@) == segments(s@),
            0 <= start <= k <= segs@.len(),
            components_view(res@) == head + parts_of(strs(segs@).subrange(start, k as int)),
        decreases segs@.len() - k,
    {
        let seg = segs[k].as_str();
        let ghost before = components_view(res@);
        let ghost sub = strs(segs@).subrange(start, k + 1);
        assert(sub.drop_last() =~= strs(segs@).subrange(start, k as int));
        assert(sub.last() == seg@);
        if seg.unicode_len() == 0 || str_eq(seg, ".") {
        } else if str_eq(seg, "..") {
            res.push(PathComponent::ParentDir);
            assert(components_view(res@) =~= before.push(PathPart::Parent));
        } else {
            res.push(PathComponent::Normal(str_to_string(seg)));
            assert(components_view(res@) =~= before.push(PathPart::Name(seg@)));
        }
        k = k + 1;
    }
    proof {
        let all = strs(segs@);
        if start == 0 {
            assert(all.subrange(0, all.len() as int) =~= all);
            assert(head =~= Seq::<PathPart>::empty() || head =~= seq![PathPart::Root]);
        } else {
            assert(all.subrange(1, all.len() as int) =~= all.drop_first());
        }
    }
    res
}

fn part_less(a: &PathComponent, b: &PathComponent) -> (r: bool)
    ensures
        r == part_lt(component_view(*a), component_view(*b)),
{
    match (a, b) {
        (PathComponent::Normal(x), PathComponent::Normal(y)) => str_lt(x.as_str(), y.as_str()),
        _ => component_rank(a) < component_rank(b),
    }
}

fn component_rank(c: &PathComponent) -> (r: u8)
    ensures
        r == part_rank(component_view(*c)),
{
    match c {
        PathComponent::RootDir => 0,
        PathComponent::CurDir => 1,
        PathComponent::ParentDir => 2,
        PathComponent::Normal(_) => 3,
    }
}

fn part_same(a: &PathComponent, b: &PathComponent) -> (r: bool)
    ensures
        r == (component_view(*a) == component_view(*b)),
{
    match (a, b) {
        (PathComponent::Normal(x), PathComponent::Normal(y)) => str_eq(x.as_str(), y.as_str()),
        _ => component_rank(a) == component_rank(b),
    }
}

/// Lexicographic comparison of two lists of components.
fn components_less(a: &Vec<PathComponent>, b: &Vec<PathComponent>) -> (r: bool)
    ensures
        r == lex_lt(components_view(a@), components_view(b@), part_order()),
{
    let ghost va = components_view(a@);
    let ghost vb = components_view(b@);
    let mut i: usize = 0;
    assert(va.skip(0) =~= va && vb.skip(0) =~= vb);
    while i < a.len() && i < b.len()
        invariant
            va == components_view(a@),
            vb == components_view(b@),
            i <= a@.len(),
            i <= b@.len(),
            lex_lt(va, vb, part_order()) == lex_lt(va.skip(i as int), vb.skip(i as int), part_order()),
        decreases a@.len() - i,
    {
        assert(va.skip(i as int)[0] == component_view(a@[i as int]));
        assert(vb.skip(i as int)[0] == component_view(b@[i as int]));
        if !part_same(&a[i], &b[i]) {
            return part_less(&a[i], &b[i]);
        }
        assert(va.skip(i as int).drop_first() =~= va.skip(i + 1));
        assert(vb.skip(i as int).drop_first() =~= vb.skip(i + 1));
        i = i + 1;
    }
    assert(i == a@.len() ==> va.skip(i as int).len() == 0);
    assert(i == b@.len() ==> vb.skip(i as int).len() == 0);
    i < b.len() && i == a.len()
}

/// `a` sorts before `b` as a path.
pub fn path_less(a: &str, b: &str) -> (r: bool)
    ensures
        r == path_lt(a@, b@),
{
    let ca = path_components(a);
    let cb = path_components(b);
    components_less(&ca, &cb)
}

/// Whether `a` and `b` are equal as paths (the same components).
pub fn path_eq(a: &str, b: &str) -> (r: bool)
    ensures
        r == same_path(a@, b@),
{
    let r = !path_less(a, b) && !path_less(b, a);
    proof {
        if same_path(a@, b@) {
            lemma_path_irreflexive(a@);
        } else {
            lemma_path_total(a@, b@);
        }
    }
    r
}

/// Drops each path equal (component by component) to the one kept before it, as `Vec::dedup`
/// does on `PathBuf`s.
pub open spec fn path_dedup(s: Seq<Seq<char>>) -> Seq<Seq<char>>
    decreases s.len(),
{
    if s.len() == 0 {
        Seq::empty()
    } else {
        let r = path_dedup(s.drop_last());
        if r.len() > 0 && same_path(r.last(), s.last()) {
            r
        } else {
            r.push(s.last())
        }
    }
}

/// Drops each path equal to the one kept before it.
pub fn dedup_paths(v: &Vec<String>) -> (res: Vec<String>)
    ensures
        strs(res@) == path_dedup(strs(v@)),
{
    let mut res: Vec<String> = Vec::new();
    let mut k: usize = 0;
    assert(strs(v@.take(0)) =~= Seq::<Seq<char>>::empty());
    while k < v.len()
        invariant
            k <= v.len(),
            strs(res@) == path_dedup(strs(v@.take(k as int))),
        decreases v.len() - k,
    {
        let ghost t = strs(v@.take(k + 1));
        assert(t.drop_last() =~= strs(v@.take(k as int)));
        assert(t.last() == v@[k as int]@);
        let keep = res.len() == 0 || !path_eq(res[res.len() - 1].as_str(), v[k].as_str());
        if keep {
            let ghost prev = res@;
            res.push(str_to_string(v[k].as_str()));
            assert(strs(res@) =~= strs(prev).push(v@[k as int]@));
        } else {
            assert(strs(res@).last() == res@[res@.len() - 1]@);
        }
        k = k + 1;
    }
    assert(v@.take(v.len() as int) =~= v@);
    res
}

/// The first position of `s` holding a path after `x` (its length if none).
pub open spec fn path_insertion_point(s: Seq<Seq<char>>, x: Seq<char>) -> int
    decreases s.len(),
{
    if s.len() == 0 {
        0
    } else if path_lt(x, s[0]) {
        0
    } else {
        1 + path_insertion_point(s.drop_first(), x)
    }
}

/// Stable insertion sort of paths in path order, keeping duplicates: each path goes after the
/// paths already placed that do not come after it.
pub open spec fn path_sort(s: Seq<Seq<char>>) -> Seq<Seq<char>>
    decreases s.len(),
{
    if s.len() == 0 {
        Seq::empty()
    } else {
        let r = path_sort(s.drop_last());
        r.insert(path_insertion_point(r, s.last()), s.last())
    }
}

proof fn lemma_path_insertion_point(s: Seq<Seq<char>>, x: Seq<char>, p: int)
    requires
        0 <= p <= s.len(),
        forall|i: int| 0 <= i < p ==> !path_lt(x, #[trigger] s[i]),
        p == s.len() || path_lt(x, s[p]),
    ensures
        path_insertion_point(s, x) == p,
    decreases s.len(),
{
    if s.len() > 0 && p > 0 {
        lemma_path_insertion_point(s.drop_first(), x, p - 1);
    }
}

/// Sorts paths in path order (as sorting `PathBuf`s does), keeping duplicates.
pub fn sort_paths(v: &Vec<String>) -> (res: Vec<String>)
    ensures
        strs(res@) == path_sort(strs(v@)),
{
    let mut res: Vec<String> = Vec::new();
    let mut k: usize = 0;
    assert(strs(res@) =~= path_sort(strs(v@.take(0))));
    while k < v.len()
        invariant
            k <= v.len(),
            strs(res@) == path_sort(strs(v@.take(k as int))),
        decreases v.len() - k,
    {
        let x = str_to_string(v[k].as_str());
        let mut p: usize = 0;
        while p < res.len() && !path_less(x.as_str(), res[p].as_str())
            invariant
                p <= res.len(),
                forall|i: int| 0 <= i < p ==> !path_lt(x@, #[trigger] res@[i]@),
            decreases res.len() - p,
        {
            p = p + 1;
        }
        let ghost old_res = res@;
        res.insert(p, x);
        proof {
            assert(forall|i: int| 0 <= i < p ==> #[trigger] strs(old_res)[i] == old_res[i]@);
            lemma_path_insertion_point(strs(old_res), x@, p as int);
            assert(strs(v@.take(k + 1)).drop_last() =~= strs(v@.take(k as int)));
            assert(strs(v@.take(k + 1)).last() == x@);
            assert(strs(res@) =~= strs(old_res).insert(p as int, x@));
        }
        k = k + 1;
    }
    assert(v@.take(v.len() as int) =~= v@);
    res
}

/// The directory names that input scanning leaves out.
pub open spec fn is_ignored_component(c: Seq<char>) -> bool {
    c == "target"@ || c == "node_modules"@ || c == ".git"@ || c == ".runkernel"@ || c == ".cargo"@
        || c == ".next"@
}

/// Whether some component of the path is one of the directory names given.
pub fn has_component_in(path: &str, names: &[&str]) -> (res: bool)
    ensures
        res == exists|k: int, m: int|
            0 <= k < segments(path@).len() && 0 <= m < names@.len() && #[trigger] segments(path@)[k]
                == #[trigger] names@[m]@,
{
    let segs = split_segments(path);
    let mut k: usize = 0;
    while k < segs.len()
        invariant
            strs(segs@) == segments(path@),
            k <= segs@.len(),
            forall|k2: int, m: int| 0 <= k2 < k && 0 <= m < names@.len() ==> #[trigger] segments(path@)[k2] != #[trigger] names@[m]@,
        decreases segs@.len() - k,
    {
        let mut m: usize = 0;
        while m < names.len()
            invariant
                strs(segs@) == segments(path@),
                k < segs@.len(),
                m <= names@.len(),
                forall|m2: int| 0 <= m2 < m ==> segments(path@)[k as int] != #[trigger] names@[m2]@,
            decreases names@.len() - m,
        {
            if str_eq(segs[k].as_str(), names[m]) {
                assert(strs(segs@)[k as int] == segs@[k as int]@);
                return true;
            }
            m = m + 1;
        }
        k = k + 1;
    }
    false
}

/// Whether input scanning leaves this path out: some component is `target`, `node_modules`,
/// `.git`, `.runkernel`, `.cargo` or `.next`.
pub fn should_ignore_path(path: &str) -> (res: bool)
    ensures
        res == exists|k: int| 0 <= k < segments(path@).len() && #[trigger] is_ignored_component(segments(path@)[k]),
{
    let names = ["target", "node_modules", ".git", ".runkernel", ".cargo", ".next"];
    let r = has_component_in(path, &names);
    proof {
        let nv = names@;
        assert(nv.len() == 6);
        if r {
            let (k, m) = choose|k: int, m: int| 0 <= k < segments(path@).len() && 0 <= m < nv.len() && #[trigger] segments(path@)[k] == #[trigger] nv[m]@;
            assert(is_ignored_component(segments(path@)[k]));
        } else {
            assert forall|k: int| 0 <= k < segments(path@).len() implies !#[trigger] is_ignored_component(segments(path@)[k]) by {
                assert(segments(path@)[k] != nv[0]@);
                assert(segments(path@)[k] != nv[1]@);
                assert(segments(path@)[k] != nv[2]@);
                assert(segments(path@)[k] != nv[3]@);
                assert(segments(path@)[k] != nv[4]@);
                assert(segments(path@)[k] != nv[5]@);
            }
        }
    }
    r
}

} // verus!

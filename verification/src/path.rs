//! Mapping a request path onto a file under the front-end folder, refusing
//! any path that would leave it.
use vstd::prelude::*;
use crate::host::views;
use crate::text::{
    chars_of, find_first, first_where, lemma_split_on_pieces, other_than, split_on, split_str,
    string_of, Stop,
};

verus! {

/// The request path without its leading slashes; `index.html` when nothing is left.
pub open spec fn spec_relative(url_path: Seq<char>) -> Seq<char> {
    let rel = url_path.skip(first_where(url_path, other_than('/')) as int);
    if rel.len() == 0 {
        "index.html"@
    } else {
        rel
    }
}

/// Whether a relative path begins with a current-directory component
/// (`.` alone or `./`), which `Path::components` reports as `CurDir`.
pub open spec fn starts_with_cur_dir(rel: Seq<char>) -> bool {
    rel.len() > 0 && rel[0] == '.' && (rel.len() == 1 || rel[1] == '/')
}

/// The parent-directory component.
pub open spec fn parent_dir() -> Seq<char> {
    seq!['.', '.']
}

/// A piece between slashes that `Path::components` drops: empty or `.`.
pub open spec fn is_skipped(p: Seq<char>) -> bool {
    p.len() == 0 || p == seq!['.']
}

/// The pieces that are normal components, in order.
pub open spec fn normal_pieces(ps: Seq<Seq<char>>) -> Seq<Seq<char>>
    decreases ps.len(),
{
    if ps.len() == 0 {
        Seq::empty()
    } else if is_skipped(ps.last()) {
        normal_pieces(ps.drop_last())
    } else {
        normal_pieces(ps.drop_last()).push(ps.last())
    }
}

/// `PathBuf::push` of a relative component on Unix: a separator is added
/// unless the buffer is empty or already ends with one.
pub open spec fn push_component(buf: Seq<char>, c: Seq<char>) -> Seq<char> {
    if buf.len() > 0 && buf.last() != '/' {
        buf + seq!['/'] + c
    } else {
        buf + c
    }
}

/// Pushing the components in order.
pub open spec fn push_components(buf: Seq<char>, cs: Seq<Seq<char>>) -> Seq<char>
    decreases cs.len(),
{
    if cs.len() == 0 {
        buf
    } else {
        push_component(push_components(buf, cs.drop_last()), cs.last())
    }
}

/// The file a request path names under `root`, or `None` when the path has a
/// current-directory prefix or a parent-directory component.
pub open spec fn spec_resolve_safe_path(root: Seq<char>, url_path: Seq<char>) -> Option<Seq<char>> {
    let rel = spec_relative(url_path);
    let pieces = split_on(rel, '/');
    if starts_with_cur_dir(rel) || pieces.contains(parent_dir()) {
        None
    } else {
        Some(push_components(root, normal_pieces(pieces)))
    }
}

/// Appends one component to a path buffer, as `PathBuf::push` does.
fn push_path_component(buf: &mut Vec<char>, c: &[char])
    ensures
        final(buf)@ == push_component(old(buf)@, c@),
{
    if buf.len() > 0 && buf[buf.len() - 1] != '/' {
        buf.push('/');
    }
    let ghost mid = buf@;
    let mut k: usize = 0;
    while k < c.len()
        invariant
            k <= c@.len(),
            buf@ == mid + c@.take(k as int),
        decreases c.len() - k,
    {
        buf.push(c[k]);
        k = k + 1;
        assert(buf@ =~= mid + c@.take(k as int));
    }
    assert(c@.take(c@.len() as int) =~= c@);
}

/// Resolve a URL path against the static root, rejecting traversal.
pub fn resolve_safe_path(root: &str, url_path: &str) -> (r: Option<String>)
    ensures
        r matches Some(p) ==> spec_resolve_safe_path(root@, url_path@) == Some(p@),
        r is None ==> spec_resolve_safe_path(root@, url_path@) is None,
{
    let v = chars_of(url_path);
    let n = v.len();
    let lo = find_first(&v, 0, n, &Stop::OtherThan('/'));
    assert(v@.subrange(0, n as int) =~= url_path@);
    let rel: &str = if lo == n {
        "index.html"
    } else {
        url_path.substring_char(lo, n)
    };
    assert(v@.subrange(lo as int, n as int) =~= url_path@.skip(lo as int));
    assert(rel@ == spec_relative(url_path@));
    let rv = chars_of(rel);
    if rv.len() > 0 && rv[0] == '.' && (rv.len() == 1 || rv[1] == '/') {
        return None;
    }
    let pieces = split_str(rel, '/');
    let ghost ps = split_on(rel@, '/');
    assert(views(pieces@) =~= ps);
    let mut buf: Vec<char> = chars_of(root);
    let mut i: usize = 0;
    while i < pieces.len()
        invariant
            i <= pieces@.len() == ps.len(),
            views(pieces@) == ps,
            ps == split_on(spec_relative(url_path@), '/'),
            !starts_with_cur_dir(spec_relative(url_path@)),
            buf@ == push_components(root@, normal_pieces(ps.take(i as int))),
            forall|j: int| 0 <= j < i ==> ps[j] != parent_dir(),
        decreases pieces.len() - i,
    {
        let p = pieces[i];
        assert(ps[i as int] == p@) by {
            assert(views(pieces@)[i as int] == pieces@[i as int]@);
        }
        let pv = chars_of(p);
        assert(ps.take(i + 1).drop_last() =~= ps.take(i as int));
        assert(ps.take(i + 1).last() == p@);
        if pv.len() == 2 && pv[0] == '.' && pv[1] == '.' {
            assert(p@ =~= parent_dir());
            assert(ps.contains(parent_dir()));
            return None;
        }
        if pv.len() == 0 || (pv.len() == 1 && pv[0] == '.') {
            assert(is_skipped(p@)) by {
                if pv.len() == 1 {
                    assert(p@ =~= seq!['.']);
                }
            }
            assert(normal_pieces(ps.take(i + 1)) == normal_pieces(ps.take(i as int)));
        } else {
            assert(!is_skipped(p@)) by {
                if p@ == seq!['.'] {
                    assert(pv@[0] == '.');
                }
            }
            assert(p@ != parent_dir()) by {
                if p@ == parent_dir() {
                    assert(pv@[0] == '.' && pv@[1] == '.');
                }
            }
            let ghost prev = normal_pieces(ps.take(i as int));
            push_path_component(&mut buf, &pv);
            assert(normal_pieces(ps.take(i + 1)) == prev.push(p@));
            assert(prev.push(p@).drop_last() =~= prev);
        }
        i = i + 1;
    }
    assert(ps.take(ps.len() as int) =~= ps);
    assert(!ps.contains(parent_dir()));
    Some(string_of(&buf))
}

/// Each normal piece is a piece that is neither empty nor `.`.
proof fn lemma_normal_pieces_from(ps: Seq<Seq<char>>)
    ensures
        forall|i: int| 0 <= i < normal_pieces(ps).len() ==> (exists|j: int| 0 <= j < ps.len() && ps[j]
            == #[trigger] normal_pieces(ps)[i]) && !is_skipped(normal_pieces(ps)[i]),
    decreases ps.len(),
{
    if ps.len() > 0 {
        let init = ps.drop_last();
        lemma_normal_pieces_from(init);
        assert forall|i: int| 0 <= i < normal_pieces(ps).len() implies (exists|j: int| 0 <= j < ps.len()
            && ps[j] == #[trigger] normal_pieces(ps)[i]) && !is_skipped(normal_pieces(ps)[i]) by {
            if i < normal_pieces(init).len() {
                let j = choose|j: int| 0 <= j < init.len() && init[j] == normal_pieces(init)[i];
                assert(ps[j] == init[j]);
                assert(normal_pieces(ps)[i] == normal_pieces(init)[i]);
            } else {
                assert(normal_pieces(ps)[i] == ps.last());
                assert(ps[ps.len() - 1] == ps.last());
            }
        }
    }
}

/// Pushing components keeps the buffer as a prefix.
proof fn lemma_push_components_prefix(buf: Seq<char>, cs: Seq<Seq<char>>)
    ensures
        buf.is_prefix_of(push_components(buf, cs)),
    decreases cs.len(),
{
    if cs.len() > 0 {
        lemma_push_components_prefix(buf, cs.drop_last());
        let b = push_components(buf, cs.drop_last());
        assert(b.is_prefix_of(push_component(b, cs.last())));
        assert(push_component(b, cs.last()).subrange(0, buf.len() as int) =~= b.subrange(0, buf.len() as int));
    }
}

/// A resolved path never leaves the root: it begins with the root, and every
/// component pushed after it is a nonempty name without a slash, and is
/// neither `.` nor `..`.
pub proof fn lemma_resolved_path_stays_under_root(root: Seq<char>, url_path: Seq<char>)
    requires
        spec_resolve_safe_path(root, url_path) is Some,
    ensures
        ({
            let p = spec_resolve_safe_path(root, url_path)->Some_0;
            let cs = normal_pieces(split_on(spec_relative(url_path), '/'));
            &&& root.is_prefix_of(p)
            &&& p == push_components(root, cs)
            &&& forall|i: int|
                0 <= i < cs.len() ==> #[trigger] cs[i] != parent_dir() && cs[i].len() > 0 && cs[i]
                    != seq!['.'] && !cs[i].contains('/')
        }),
{
    let rel = spec_relative(url_path);
    let ps = split_on(rel, '/');
    let cs = normal_pieces(ps);
    lemma_push_components_prefix(root, cs);
    lemma_normal_pieces_from(ps);
    lemma_split_on_pieces(rel, '/');
    assert forall|i: int| 0 <= i < cs.len() implies #[trigger] cs[i] != parent_dir() && cs[i].len() > 0
        && cs[i] != seq!['.'] && !cs[i].contains('/') by {
        let j = choose|j: int| 0 <= j < ps.len() && ps[j] == cs[i];
        assert(ps.contains(ps[j]));
        if cs[i].contains('/') {
            let k = choose|k: int| 0 <= k < cs[i].len() && cs[i][k] == '/';
            assert(ps[j][k] == '/');
        }
    }
}

} // verus!

//! Unix paths as text: their components, their file name, and when two of them
//! are the same path.
use crate::text::{chars_of, find_from, joined, lemma_run_before, run_before, same_text, string_of, texts_of};
use vstd::prelude::*;

verus! {

/// The names between the separators of `p`. Empty names and `.` do not count.
pub open spec fn names(p: Seq<char>) -> Seq<Seq<char>>
    decreases p.len(),
    via names_decreases
{
    if p.len() == 0 {
        Seq::empty()
    } else {
        let n = run_before(p, '/');
        let name = p.take(n as int);
        let rest = if n < p.len() {
            names(p.skip(n as int + 1))
        } else {
            Seq::empty()
        };
        if name.len() == 0 || name == seq!['.'] {
            rest
        } else {
            seq![name] + rest
        }
    }
}

#[via_fn]
proof fn names_decreases(p: Seq<char>) {
    lemma_run_before(p, '/');
}

/// The components of the path `p`: the root, written `/`, if the path starts
/// there; `.` only where a relative path starts with it; then its names.
pub open spec fn components(p: Seq<char>) -> Seq<Seq<char>> {
    if p.len() > 0 && p[0] == '/' {
        seq![seq!['/']] + names(p)
    } else if p.take(run_before(p, '/') as int) == seq!['.'] {
        seq![seq!['.']] + names(p)
    } else {
        names(p)
    }
}

/// The file name of the path `p`: its last component, unless that is the root,
/// `.` or `..`.
pub open spec fn file_name(p: Seq<char>) -> Option<Seq<char>> {
    let c = components(p);
    if c.len() == 0 || c.last() == seq!['/'] || c.last() == seq!['.'] || c.last() == seq!['.', '.'] {
        None
    } else {
        Some(c.last())
    }
}

/// Whether `p` and `q` are the same path: they have the same components.
pub open spec fn same_path(p: Seq<char>, q: Seq<char>) -> bool {
    components(p) == components(q)
}

/// The file `name` in the directory of device nodes.
pub open spec fn dev_node(name: Seq<char>) -> Seq<char> {
    "/dev/"@ + name
}

/// The names between the separators of `p`.
fn names_of(p: &str) -> (found: Vec<String>)
    ensures
        texts_of(found@) == names(p@),
{
    let x = chars_of(p);
    let mut found: Vec<String> = Vec::new();
    let mut i: usize = 0;
    assert(x@.skip(0) == p@);
    assert(texts_of(found@) + names(p@) == names(p@));
    while i < x.len()
        invariant
            i <= x.len(),
            texts_of(found@) + names(x@.skip(i as int)) == names(p@),
        decreases x.len() - i,
    {
        let ghost rest = x@.skip(i as int);
        let ghost before = texts_of(found@);
        let end: usize = find_from(x.as_slice(), i, '/');
        let next: usize = if end < x.len() {
            end + 1
        } else {
            end
        };
        proof {
            if end < x.len() {
                assert(rest.skip(end - i + 1) == x@.skip(next as int));
            } else {
                assert(x@.skip(next as int).len() == 0);
                assert(names(x@.skip(next as int)) == Seq::<Seq<char>>::empty());
            }
        }
        let name = string_of(vstd::slice::slice_subrange(x.as_slice(), i, end));
        assert(name@ == rest.take(end - i));
        if end > i && !(end - i == 1 && x[i] == '.') {
            assert(name@ != seq!['.']) by {
                if name@ == seq!['.'] {
                    assert(name@.len() == 1);
                    assert(name@[0] == '.');
                }
            }
            found.push(name);
            assert(texts_of(found@) == before.push(name@));
            assert(texts_of(found@) + names(x@.skip(next as int)) == before + (seq![name@] + names(
                x@.skip(next as int),
            )));
        } else {
            assert(name@.len() == 0 || name@ == seq!['.']);
        }
        i = next;
    }
    assert(texts_of(found@) + names(x@.skip(i as int)) == texts_of(found@));
    found
}

/// The components of the path `p`.
pub fn path_components(p: &str) -> (found: Vec<String>)
    ensures
        texts_of(found@) == components(p@),
{
    let x = chars_of(p);
    let mut rest = names_of(p);
    let end: usize = find_from(x.as_slice(), 0, '/');
    assert(x@.skip(0) == p@);
    if x.len() > 0 && x[0] == '/' {
        let mut found: Vec<String> = Vec::new();
        let mut root = String::new();
        root.push('/');
        assert(root@ == seq!['/']);
        found.push(root);
        let ghost tail = rest@;
        found.append(&mut rest);
        assert(texts_of(found@) == seq![root@] + texts_of(tail));
        found
    } else if end == 1 && x[0] == '.' {
        assert(p@.take(1) == seq!['.']);
        let mut found: Vec<String> = Vec::new();
        let mut here = String::new();
        here.push('.');
        assert(here@ == seq!['.']);
        found.push(here);
        let ghost tail = rest@;
        found.append(&mut rest);
        assert(texts_of(found@) == seq![here@] + texts_of(tail));
        found
    } else {
        assert(p@.take(end as int) != seq!['.']) by {
            if p@.take(end as int) == seq!['.'] {
                assert(p@.take(end as int).len() == 1);
                assert(p@.take(end as int)[0] == '.');
            }
        }
        rest
    }
}

/// Whether `s` is the one character `c`.
fn is_only(s: &str, c: char) -> (r: bool)
    ensures
        r == (s@ == seq![c]),
{
    let x = chars_of(s);
    let r = x.len() == 1 && x[0] == c;
    proof {
        if r {
            assert(s@ =~= seq![c]);
        } else if s@ == seq![c] {
            assert(s@.len() == 1 && s@[0] == c);
        }
    }
    r
}

/// The file name of the path `p`.
pub fn path_file_name(p: &str) -> (name: Option<String>)
    ensures
        match name {
            Some(n) => file_name(p@) == Some(n@),
            None => file_name(p@) is None,
        },
{
    let found = path_components(p);
    if found.len() == 0 {
        assert(components(p@).len() == 0);
        return None;
    }
    let last = found[found.len() - 1].clone();
    assert(last@ == components(p@).last());
    let x = chars_of(last.as_str());
    let up = x.len() == 2 && x[0] == '.' && x[1] == '.';
    proof {
        if up {
            assert(last@ =~= seq!['.', '.']);
        } else if last@ == seq!['.', '.'] {
            assert(last@.len() == 2 && last@[0] == '.' && last@[1] == '.');
        }
    }
    if up || is_only(last.as_str(), '/') || is_only(last.as_str(), '.') {
        None
    } else {
        Some(last)
    }
}

/// The component of `p` at position `n`, counted from 0.
pub fn path_component(p: &str, n: usize) -> (c: Option<String>)
    ensures
        match c {
            Some(t) => n < components(p@).len() && t@ == components(p@)[n as int],
            None => n >= components(p@).len(),
        },
{
    let found = path_components(p);
    assert(found@.len() == components(p@).len());
    if n < found.len() {
        let t = found[n].clone();
        assert(t@ == texts_of(found@)[n as int]);
        Some(t)
    } else {
        None
    }
}

/// Whether `p` and `q` are the same path.
pub fn is_same_path(p: &str, q: &str) -> (same: bool)
    ensures
        same == same_path(p@, q@),
{
    let a = path_components(p);
    let b = path_components(q);
    assert(a@.len() == components(p@).len());
    assert(b@.len() == components(q@).len());
    if a.len() != b.len() {
        return false;
    }
    let mut i: usize = 0;
    while i < a.len()
        invariant
            i <= a.len(),
            a.len() == b.len(),
            texts_of(a@) == components(p@),
            texts_of(b@) == components(q@),
            forall|j: int| 0 <= j < i ==> components(p@)[j] == components(q@)[j],
        decreases a.len() - i,
    {
        assert(a@[i as int]@ == texts_of(a@)[i as int]);
        assert(b@[i as int]@ == texts_of(b@)[i as int]);
        if !same_text(a[i].as_str(), b[i].as_str()) {
            return false;
        }
        i = i + 1;
    }
    assert(components(p@) =~= components(q@));
    true
}

/// The path of the device node `name`.
pub fn dev_path(name: &str) -> (p: String)
    ensures
        p@ == dev_node(name@),
        p@ == "/dev/"@ + name@,
{
    joined("/dev/", name)
}

/// Whether `name` can be the name of a file in a directory.
pub open spec fn is_plain(name: Seq<char>) -> bool {
    &&& name.len() > 0
    &&& forall|i: int| 0 <= i < name.len() ==> name[i] != '/'
    &&& name != seq!['.']
}

/// The names of a path can be names of files.
proof fn lemma_names_plain(p: Seq<char>)
    ensures
        forall|i: int| 0 <= i < names(p).len() ==> is_plain(#[trigger] names(p)[i]),
    decreases p.len(),
{
    if p.len() > 0 {
        let n = run_before(p, '/');
        lemma_run_before(p, '/');
        let name = p.take(n as int);
        let rest = if n < p.len() {
            names(p.skip(n as int + 1))
        } else {
            Seq::empty()
        };
        if n < p.len() {
            lemma_names_plain(p.skip(n as int + 1));
        }
        if name.len() > 0 && name != seq!['.'] {
            assert(is_plain(name));
            assert forall|i: int| 0 <= i < names(p).len() implies is_plain(
                #[trigger] names(p)[i],
            ) by {
                if i > 0 {
                    assert(names(p)[i] == rest[i - 1]);
                }
            }
        }
    }
}

/// The file name of a path can be the name of a file.
pub proof fn lemma_file_name_plain(p: Seq<char>)
    requires
        file_name(p) is Some,
    ensures
        is_plain(file_name(p)->0),
        file_name(p)->0 != seq!['.', '.'],
{
    lemma_names_plain(p);
    let c = components(p);
    let n = names(p);
    if n.len() > 0 {
        assert(c.last() == n.last());
        assert(is_plain(n[n.len() - 1]));
    }
}

/// A path without a separator is one name.
proof fn lemma_one_name(x: Seq<char>)
    requires
        is_plain(x),
    ensures
        names(x) == seq![x],
{
    lemma_run_before(x, '/');
    let n = run_before(x, '/');
    if n < x.len() {
        assert(x[n as int] == '/');
    }
    assert(x.take(n as int) =~= x);
    assert(names(x) =~= seq![x]);
}

/// Paths without a separator, such as `\\.\PhysicalDrive1`, are the same path exactly if
/// they are the same text.
pub proof fn law_single_names(x: Seq<char>, y: Seq<char>)
    requires
        is_plain(x),
        is_plain(y),
    ensures
        same_path(x, y) <==> x == y,
{
    lemma_one_name(x);
    lemma_one_name(y);
    lemma_run_before(x, '/');
    lemma_run_before(y, '/');
    assert(x.take(run_before(x, '/') as int) =~= x);
    assert(y.take(run_before(y, '/') as int) =~= y);
    assert(components(x)[0] == x);
    assert(components(y)[0] == y);
}

/// The file name of a device node is its name.
pub proof fn lemma_dev_node_name(x: Seq<char>)
    requires
        is_plain(x),
        x != seq!['.', '.'],
    ensures
        file_name(dev_node(x)) == Some(x),
{
    reveal_strlit("/dev/");
    let p = dev_node(x);
    let dev = seq!['d', 'e', 'v'];
    assert(p[0] == '/');
    assert(p.take(0).len() == 0);
    assert(run_before(p, '/') == 0);
    let q = p.skip(1);
    assert(names(p) == names(q));
    assert(q =~= dev + seq!['/'] + x);
    assert(q.skip(1).skip(1).skip(1)[0] == '/');
    assert(run_before(q, '/') == 3) by {
        reveal_with_fuel(run_before, 4);
    }
    assert(q.take(3) =~= dev);
    assert(dev != seq!['.']) by {
        assert(dev.len() == 3);
    }
    assert(q.skip(4) =~= x);
    lemma_one_name(x);
    assert(names(q) =~= seq![dev, x]);
    assert(components(p).last() == x);
    assert(x != seq!['/']) by {
        if x == seq!['/'] {
            assert(x[0] == '/');
        }
    }
}

/// The components of the directory of a drive.
pub proof fn lemma_sys_block(x: Seq<char>)
    requires
        is_plain(x),
    ensures
        components("/sys/block/"@ + x) == seq![
            seq!['/'],
            seq!['s', 'y', 's'],
            seq!['b', 'l', 'o', 'c', 'k'],
            x,
        ],
{
    reveal_strlit("/sys/block/");
    let p = "/sys/block/"@ + x;
    let sys = seq!['s', 'y', 's'];
    let block = seq!['b', 'l', 'o', 'c', 'k'];
    assert(p[0] == '/');
    assert(p.take(0).len() == 0);
    assert(run_before(p, '/') == 0);
    let q = p.skip(1);
    assert(q =~= sys + seq!['/'] + block + seq!['/'] + x);
    assert(q.skip(1).skip(1).skip(1)[0] == '/');
    assert(run_before(q, '/') == 3) by {
        reveal_with_fuel(run_before, 4);
    }
    assert(q.take(3) =~= sys);
    let r = q.skip(4);
    assert(r =~= block + seq!['/'] + x);
    assert(r.skip(1).skip(1).skip(1).skip(1).skip(1)[0] == '/');
    assert(run_before(r, '/') == 5) by {
        reveal_with_fuel(run_before, 6);
    }
    assert(r.take(5) =~= block);
    assert(r.skip(6) =~= x);
    lemma_one_name(x);
    assert(sys.len() == 3 && block.len() == 5);
    assert(names(r) =~= seq![block, x]);
    assert(names(q) =~= seq![sys, block, x]);
    assert(components(p) =~= seq![seq!['/'], sys, block, x]);
}

/// The text before the first separator is the same with more behind a separator.
proof fn lemma_run_before_more(a: Seq<char>, b: Seq<char>)
    ensures
        run_before(a + seq!['/'] + b, '/') == run_before(a, '/'),
        run_before(a, '/') <= a.len(),
{
    let s = a + seq!['/'] + b;
    lemma_run_before(s, '/');
    lemma_run_before(a, '/');
    let n = run_before(s, '/') as int;
    let m = run_before(a, '/') as int;
    assert(s[a.len() as int] == '/');
    if m < a.len() {
        assert(s[m] == a[m]);
    }
    if n < m {
        assert(s[n] == a[n]);
    }
}

/// A separator parts the names of a path.
proof fn lemma_names_part(a: Seq<char>, b: Seq<char>)
    ensures
        names(a + seq!['/'] + b) == names(a) + names(b),
    decreases a.len(),
{
    let s = a + seq!['/'] + b;
    let n = run_before(a, '/') as int;
    lemma_run_before_more(a, b);
    assert(s.take(n) =~= a.take(n));
    if n < a.len() {
        assert(s.skip(n + 1) =~= a.skip(n + 1) + seq!['/'] + b);
        lemma_names_part(a.skip(n + 1), b);
        assert(names(s) =~= names(a) + names(b));
    } else {
        assert(s.skip(n + 1) =~= b);
        assert(a.take(n) =~= a);
        assert(names(s) =~= names(a) + names(b));
    }
}

proof fn lemma_components_part(a: Seq<char>, b: Seq<char>)
    requires
        a.len() > 0,
    ensures
        components(a + seq!['/'] + b) == components(a) + names(b),
{
    let s = a + seq!['/'] + b;
    lemma_names_part(a, b);
    lemma_run_before_more(a, b);
    assert(s[0] == a[0]);
    let n = run_before(a, '/') as int;
    assert(s.take(n) =~= a.take(n));
    assert(components(s) =~= components(a) + names(b));
}

/// A name in a directory is one component more, and a separator or a dot behind a path
/// changes nothing.
pub proof fn law_components_of_file(dir: Seq<char>, name: Seq<char>)
    requires
        dir.len() > 0,
        name.len() > 0,
        name != seq!['.'],
        forall|i: int| 0 <= i < name.len() ==> #[trigger] name[i] != '/',
    ensures
        components(dir + seq!['/'] + name) == components(dir).push(name),
        components(dir + seq!['/']) == components(dir),
        components(dir + seq!['/'] + seq!['.']) == components(dir),
{
    assert(is_plain(name));
    lemma_one_name(name);
    lemma_components_part(dir, name);
    assert(components(dir) + seq![name] =~= components(dir).push(name));
    lemma_components_part(dir, Seq::empty());
    assert(dir + seq!['/'] + Seq::<char>::empty() =~= dir + seq!['/']);
    assert(components(dir) + Seq::<Seq<char>>::empty() =~= components(dir));
    lemma_dot();
    lemma_components_part(dir, seq!['.']);
}

/// A dot has no names.
proof fn lemma_dot()
    ensures
        names(seq!['.']) == Seq::<Seq<char>>::empty(),
        components(seq!['.']) == seq![seq!['.']],
{
    let p = seq!['.'];
    lemma_run_before(p, '/');
    assert(run_before(p, '/') == 1) by {
        if run_before(p, '/') < 1 {
            assert(p[0] == '/');
        }
    }
    assert(p.take(1) =~= p);
    assert(names(p) =~= Seq::<Seq<char>>::empty());
    assert(components(p) =~= seq![seq!['.']]);
}

/// The root is one component, so is a dot and so is a name, and an empty path has none.
pub proof fn law_components_of_start(name: Seq<char>)
    requires
        name.len() > 0,
        name != seq!['.'],
        forall|i: int| 0 <= i < name.len() ==> #[trigger] name[i] != '/',
    ensures
        components(seq!['/']) == seq![seq!['/']],
        components(seq!['.']) == seq![seq!['.']],
        components(name) == seq![name],
        components(Seq::empty()) == Seq::<Seq<char>>::empty(),
{
    assert(is_plain(name));
    lemma_one_name(name);
    lemma_dot();
    lemma_run_before(name, '/');
    assert(name.take(run_before(name, '/') as int) =~= name);
    let root = seq!['/'];
    assert(run_before(root, '/') == 0);
    assert(root.skip(1) =~= Seq::<char>::empty());
    assert(root.take(0).len() == 0);
    assert(names(Seq::<char>::empty()) =~= Seq::<Seq<char>>::empty());
    assert(names(root) =~= Seq::<Seq<char>>::empty());
    assert(components(root) =~= seq![seq!['/']]);
    let none = Seq::<char>::empty();
    assert(none.take(run_before(none, '/') as int).len() == 0);
    assert(seq!['.'].len() == 1);
}

/// The file name of a path is the name behind the last separator. The directory above has
/// none, nor has the root, nor a dot.
pub proof fn law_file_name(dir: Seq<char>, name: Seq<char>)
    requires
        dir.len() > 0,
        name.len() > 0,
        name != seq!['.'],
        forall|i: int| 0 <= i < name.len() ==> #[trigger] name[i] != '/',
    ensures
        name != seq!['.', '.'] ==> file_name(dir + seq!['/'] + name) == Some(name),
        name == seq!['.', '.'] ==> file_name(dir + seq!['/'] + name) is None,
        name != seq!['.', '.'] ==> file_name(name) == Some(name),
        file_name(dir + seq!['/']) == file_name(dir),
        file_name(seq!['/']) is None,
        file_name(seq!['.']) is None,
        file_name(Seq::empty()) is None,
{
    law_components_of_file(dir, name);
    law_components_of_start(name);
    assert(components(dir + seq!['/'] + name).last() == name);
    if name == seq!['/'] {
        assert(name[0] == '/');
    }
}

} // verus!

//! Paths as texts.

use crate::order::{before, chars_before};
use crate::text::{chars_of, opt_text, same_chars, split_chars, split_on, string_of, texts, views};
use vstd::prelude::*;
use vstd::slice::slice_subrange;

verus! {

/// The parts of a path, without empty ones and dots.
pub open spec fn path_parts(parts: Seq<Seq<char>>) -> Seq<Seq<char>>
    decreases parts.len(),
{
    if parts.len() == 0 {
        parts
    } else {
        let before = path_parts(parts.drop_last());
        let last = parts.last();
        if last.len() == 0 || last == "."@ {
            before
        } else {
            before.push(last)
        }
    }
}

/// The file name at the end of a path; a path that goes up at its end has none.
pub open spec fn file_name(path: Seq<char>) -> Option<Seq<char>> {
    let parts = path_parts(split_on(path, '/'));
    if parts.len() == 0 || parts.last() == ".."@ {
        None
    } else {
        Some(parts.last())
    }
}

/// The file name at the end of a path.
pub fn file_name_of(path: &str) -> (r: Option<String>)
    ensures
        opt_text(r) == file_name(path@),
{
    let cs = chars_of(path);
    let parts = split_chars(&cs, '/');
    let ghost all = views(parts@);
    let dot = chars_of(".");
    let dots = chars_of("..");
    let mut last: usize = parts.len();
    let ghost len = parts@.len();
    let mut i: usize = 0;
    assert(all.take(0) =~= Seq::<Seq<char>>::empty());
    while i < parts.len()
        invariant
            i <= parts@.len() == len,
            all == views(parts@),
            dot@ == "."@,
            path_parts(all.take(i as int)).len() == 0 ==> last == len,
            path_parts(all.take(i as int)).len() > 0 ==> last < i && path_parts(
                all.take(i as int),
            ).last() == all[last as int],
        decreases parts@.len() - i,
    {
        assert(all.take(i + 1).drop_last() =~= all.take(i as int));
        assert(all.take(i + 1).last() == parts@[i as int]@);
        if parts[i].len() > 0 && !same_chars(&parts[i], &dot) {
            last = i;
        }
        i += 1;
    }
    assert(all.take(all.len() as int) =~= all);
    if last < parts.len() && !same_chars(&parts[last], &dots) {
        Some(string_of(&parts[last]))
    } else {
        None
    }
}

/// A path without slashes and dots at its end that name nothing.
pub open spec fn strip_tail(path: Seq<char>) -> Seq<char>
    decreases path.len(),
{
    let n = path.len();
    if n > 1 && (path[n - 1] == '/' || (path[n - 1] == '.' && path[n - 2] == '/')) {
        strip_tail(path.drop_last())
    } else {
        path
    }
}

/// The position behind the last slash.
pub open spec fn behind_slash(path: Seq<char>) -> nat
    decreases path.len(),
{
    if path.len() == 0 {
        0
    } else if path.last() == '/' {
        path.len()
    } else {
        behind_slash(path.drop_last())
    }
}

/// The directory that a path stands in; the root and the empty path stand in
/// none.
pub open spec fn parent(path: Seq<char>) -> Option<Seq<char>> {
    let whole = strip_tail(path);
    if whole.len() == 0 || whole == "/"@ {
        None
    } else {
        Some(strip_tail(whole.take(behind_slash(whole) as int)))
    }
}

proof fn lemma_strip_tail(path: Seq<char>)
    ensures
        strip_tail(path).len() <= path.len(),
        strip_tail(path).len() > 1 ==> strip_tail(path).last() != '/',
        path.len() > 0 ==> strip_tail(path).len() > 0,
    decreases path.len(),
{
    let n = path.len();
    if n > 1 && (path[n - 1] == '/' || (path[n - 1] == '.' && path[n - 2] == '/')) {
        lemma_strip_tail(path.drop_last());
    }
}

proof fn lemma_behind_slash(path: Seq<char>)
    ensures
        behind_slash(path) <= path.len(),
        path.len() > 0 && path.last() != '/' ==> behind_slash(path) < path.len(),
    decreases path.len(),
{
    if path.len() > 0 && path.last() != '/' {
        lemma_behind_slash(path.drop_last());
    }
}

proof fn lemma_parent_is_shorter(path: Seq<char>)
    ensures
        parent(path) is Some ==> parent(path)->0.len() < path.len(),
{
    reveal_strlit("/");
    let whole = strip_tail(path);
    lemma_strip_tail(path);
    if whole.len() > 0 && whole != "/"@ {
        if whole.len() == 1 && whole[0] == '/' {
            assert(whole =~= "/"@);
        }
        lemma_behind_slash(whole);
        lemma_strip_tail(whole.take(behind_slash(whole) as int));
    }
}

/// A path and the directories it stands in, from the outermost to the path
/// itself.
pub open spec fn lineage(path: Seq<char>) -> Seq<Seq<char>>
    decreases path.len(),
{
    match parent(path) {
        Some(dir) => if dir.len() < path.len() {
            lineage(dir).push(path)
        } else {
            seq![path]
        },
        None => seq![path],
    }
}

fn without_tail(path: &[char]) -> (r: usize)
    ensures
        r <= path@.len(),
        path@.take(r as int) == strip_tail(path@),
{
    let mut n: usize = path.len();
    assert(path@.take(n as int) =~= path@);
    while n > 1 && (path[n - 1] == '/' || (path[n - 1] == '.' && path[n - 2] == '/'))
        invariant
            n <= path@.len(),
            strip_tail(path@) == strip_tail(path@.take(n as int)),
        decreases n,
    {
        assert(path@.take(n as int).drop_last() =~= path@.take(n - 1));
        n -= 1;
    }
    n
}

fn parent_of(path: &[char]) -> (r: Option<Vec<char>>)
    ensures
        match r {
            Some(dir) => parent(path@) == Some(dir@) && dir@.len() < path@.len(),
            None => parent(path@) is None,
        },
{
    proof {
        reveal_strlit("/");
        lemma_parent_is_shorter(path@);
    }
    let n: usize = without_tail(path);
    let ghost whole = path@.take(n as int);
    if n == 0 {
        return None;
    }
    if n == 1 && path[0] == '/' {
        assert(whole =~= "/"@);
        return None;
    }
    assert(whole != "/"@) by {
        if whole == "/"@ {
            assert(whole.len() == 1 && whole[0] == '/');
        }
    }
    let mut k: usize = n;
    assert(whole.take(k as int) =~= whole);
    while k > 0 && path[k - 1] != '/'
        invariant
            k <= n <= path@.len(),
            whole == path@.take(n as int),
            behind_slash(whole) == behind_slash(whole.take(k as int)),
        decreases k,
    {
        assert(whole.take(k as int).drop_last() =~= whole.take(k - 1));
        k -= 1;
    }
    let front = slice_subrange(path, 0, k);
    assert(front@ =~= whole.take(k as int));
    let m: usize = without_tail(front);
    let dir = slice_subrange(front, 0, m);
    assert(dir@ =~= front@.take(m as int));
    Some(crate::text::copy_chars(dir))
}

fn lineage_chars(path: &Vec<char>) -> (r: Vec<Vec<char>>)
    ensures
        views(r@) == lineage(path@),
    decreases path@.len(),
{
    match parent_of(path) {
        Some(dir) => {
            let mut out = lineage_chars(&dir);
            let ghost start = views(out@);
            out.push(crate::text::copy_chars(path));
            assert(views(out@) =~= start.push(path@));
            out
        },
        None => {
            let mut out: Vec<Vec<char>> = Vec::new();
            out.push(crate::text::copy_chars(path));
            assert(views(out@) =~= seq![path@]);
            out
        },
    }
}

/// A path and the directories it stands in, from the outermost to the path
/// itself.
pub fn lineage_of(path: &str) -> (r: Vec<String>)
    ensures
        texts(r@) == lineage(path@),
{
    let cs = chars_of(path);
    let list = lineage_chars(&cs);
    crate::text::strings_of(&list)
}

/// The parts of a path by which paths are ordered: the root, where the path is
/// absolute, a dot that a relative path starts with, and the other parts.
pub open spec fn components(path: Seq<char>) -> Seq<Seq<char>> {
    let raw = split_on(path, '/');
    let start = if path.len() > 0 && path[0] == '/' {
        seq!["/"@]
    } else if raw[0] == "."@ {
        seq!["."@]
    } else {
        Seq::empty()
    };
    start + path_parts(raw)
}

/// The kind of a part: the root comes first, then a dot, two dots and names.
pub open spec fn part_rank(part: Seq<char>) -> int {
    if part == "/"@ {
        0
    } else if part == "."@ {
        1
    } else if part == ".."@ {
        2
    } else {
        3
    }
}

/// Whether a part comes before another.
pub open spec fn part_before(a: Seq<char>, b: Seq<char>) -> bool {
    part_rank(a) < part_rank(b) || (part_rank(a) == part_rank(b) && before(a, b))
}

/// Whether a list of parts comes before another: at the first difference, and a
/// proper beginning first.
pub open spec fn parts_before(a: Seq<Seq<char>>, b: Seq<Seq<char>>) -> bool
    decreases a.len(),
{
    if b.len() == 0 {
        false
    } else if a.len() == 0 {
        true
    } else if a[0] != b[0] {
        part_before(a[0], b[0])
    } else {
        parts_before(a.skip(1), b.skip(1))
    }
}

/// Whether a path comes before another.
pub open spec fn path_before(a: Seq<char>, b: Seq<char>) -> bool {
    parts_before(components(a), components(b))
}

/// Whether two paths have the same parts.
pub open spec fn same_path(a: Seq<char>, b: Seq<char>) -> bool {
    components(a) == components(b)
}

fn components_of(path: &str) -> (r: Vec<Vec<char>>)
    ensures
        views(r@) == components(path@),
{
    proof {
        crate::text::lemma_split_parts(path@, '/');
    }
    let cs = chars_of(path);
    let raw = split_chars(&cs, '/');
    let ghost all = views(raw@);
    let dot = chars_of(".");
    let root = chars_of("/");
    let mut out: Vec<Vec<char>> = Vec::new();
    assert(all[0] == raw@[0]@);
    let ghost start = if path@.len() > 0 && path@[0] == '/' {
        seq!["/"@]
    } else if all[0] == "."@ {
        seq!["."@]
    } else {
        Seq::<Seq<char>>::empty()
    };
    if cs.len() > 0 && cs[0] == '/' {
        out.push(root);
        assert(views(out@) =~= seq!["/"@]);
    } else if same_chars(&raw[0], &dot) {
        out.push(crate::text::copy_chars(&dot));
        assert(views(out@) =~= seq!["."@]);
    } else {
        assert(views(out@) =~= Seq::<Seq<char>>::empty());
    }
    let mut i: usize = 0;
    assert(all.take(0) =~= Seq::<Seq<char>>::empty());
    assert(start + Seq::<Seq<char>>::empty() =~= start);
    while i < raw.len()
        invariant
            i <= raw@.len(),
            all == views(raw@),
            dot@ == "."@,
            views(out@) == start + path_parts(all.take(i as int)),
        decreases raw@.len() - i,
    {
        assert(all.take(i + 1).drop_last() =~= all.take(i as int));
        assert(all.take(i + 1).last() == raw@[i as int]@);
        if raw[i].len() > 0 && !same_chars(&raw[i], &dot) {
            let ghost known = views(out@);
            out.push(crate::text::copy_chars(&raw[i]));
            assert(views(out@) =~= known.push(all[i as int]));
            assert(views(out@) =~= start + path_parts(all.take(i + 1)));
        }
        i += 1;
    }
    assert(all.take(all.len() as int) =~= all);
    out
}

fn rank_of(part: &Vec<char>) -> (r: u8)
    ensures
        r == part_rank(part@),
{
    let root = chars_of("/");
    let dot = chars_of(".");
    let dots = chars_of("..");
    if same_chars(part, &root) {
        0
    } else if same_chars(part, &dot) {
        1
    } else if same_chars(part, &dots) {
        2
    } else {
        3
    }
}

/// Whether a path comes before another.
pub fn comes_before(a: &str, b: &str) -> (r: bool)
    ensures
        r == path_before(a@, b@),
{
    let x = components_of(a);
    let y = components_of(b);
    let ghost xs = views(x@);
    let ghost ys = views(y@);
    let mut i: usize = 0;
    assert(xs.skip(0) =~= xs);
    assert(ys.skip(0) =~= ys);
    while i < x.len() && i < y.len()
        invariant
            i <= x@.len(),
            i <= y@.len(),
            xs == views(x@),
            ys == views(y@),
            xs == components(a@),
            ys == components(b@),
            parts_before(xs, ys) == parts_before(xs.skip(i as int), ys.skip(i as int)),
        decreases x@.len() - i,
    {
        assert(xs.skip(i as int)[0] == x@[i as int]@);
        assert(ys.skip(i as int)[0] == y@[i as int]@);
        if !same_chars(&x[i], &y[i]) {
            let p: u8 = rank_of(&x[i]);
            let q: u8 = rank_of(&y[i]);
            return p < q || (p == q && chars_before(&x[i], &y[i]));
        }
        assert(xs.skip(i as int).skip(1) =~= xs.skip(i + 1));
        assert(ys.skip(i as int).skip(1) =~= ys.skip(i + 1));
        i += 1;
    }
    i < y.len()
}

/// Whether two paths have the same parts.
pub fn are_same(a: &str, b: &str) -> (r: bool)
    ensures
        r == same_path(a@, b@),
{
    let x = components_of(a);
    let y = components_of(b);
    let ghost xs = views(x@);
    let ghost ys = views(y@);
    if x.len() != y.len() {
        assert(xs.len() != ys.len());
        return false;
    }
    let mut i: usize = 0;
    while i < x.len()
        invariant
            i <= x@.len() == y@.len(),
            xs == views(x@),
            ys == views(y@),
            xs == components(a@),
            ys == components(b@),
            forall|k: int| 0 <= k < i ==> xs[k] == ys[k],
        decreases x@.len() - i,
    {
        if !same_chars(&x[i], &y[i]) {
            assert(xs[i as int] != ys[i as int]);
            return false;
        }
        i += 1;
    }
    assert(xs =~= ys);
    true
}

proof fn lemma_part_before(a: Seq<char>, b: Seq<char>)
    ensures
        !part_before(a, a),
        part_before(a, b) || part_before(b, a) || a == b,
{
    crate::order::lemma_before_irreflexive(a);
    crate::order::lemma_before_total(a, b);
}

proof fn lemma_part_transitive(a: Seq<char>, b: Seq<char>, c: Seq<char>)
    requires
        part_before(a, b),
        part_before(b, c),
    ensures
        part_before(a, c),
{
    if part_rank(a) == part_rank(b) && part_rank(b) == part_rank(c) {
        crate::order::lemma_before_transitive(a, b, c);
    }
}

/// The order of lists of parts is total and strict.
pub proof fn lemma_parts_before(a: Seq<Seq<char>>, b: Seq<Seq<char>>)
    ensures
        !parts_before(a, a),
        parts_before(a, b) || parts_before(b, a) || a == b,
    decreases a.len(),
{
    if a.len() > 0 {
        if b.len() > 0 {
            lemma_part_before(a[0], b[0]);
            lemma_parts_before(a.skip(1), b.skip(1));
            if a[0] == b[0] && a.skip(1) == b.skip(1) {
                assert(a =~= seq![a[0]] + a.skip(1));
                assert(b =~= seq![b[0]] + b.skip(1));
            }
        } else {
            lemma_parts_before(a.skip(1), a.skip(1));
        }
    } else if b.len() == 0 {
        assert(a =~= b);
    }
}

/// The order of lists of parts is transitive.
pub proof fn lemma_parts_transitive(a: Seq<Seq<char>>, b: Seq<Seq<char>>, c: Seq<Seq<char>>)
    requires
        parts_before(a, b),
        parts_before(b, c),
    ensures
        parts_before(a, c),
    decreases a.len(),
{
    if a.len() > 0 {
        if a[0] == b[0] && b[0] == c[0] {
            lemma_parts_transitive(a.skip(1), b.skip(1), c.skip(1));
        } else if a[0] != b[0] && b[0] != c[0] {
            lemma_part_transitive(a[0], b[0], c[0]);
            lemma_part_before(a[0], c[0]);
        }
    }
}

/// Every directory of a lineage is where the next one stands in.
pub proof fn law_lineage_descends(path: Seq<char>, i: int)
    requires
        0 < i < lineage(path).len(),
    ensures
        parent(lineage(path)[i]) == Some(lineage(path)[i - 1]),
        lineage(path).last() == path,
    decreases path.len(),
{
    lemma_parent_is_shorter(path);
    match parent(path) {
        Some(dir) => {
            lemma_lineage_ends(dir);
            if i < lineage(dir).len() {
                law_lineage_descends(dir, i);
            }
        },
        None => {},
    }
}

proof fn lemma_lineage_ends(path: Seq<char>)
    ensures
        lineage(path).len() > 0,
        lineage(path).last() == path,
    decreases path.len(),
{
    lemma_parent_is_shorter(path);
}

/// Whether a text is the name of a file: it is not empty, holds no slash and
/// does not stand for a directory.
pub open spec fn is_plain_name(name: Seq<char>) -> bool {
    name.len() > 0 && !name.contains('/') && name[0] != '.'
}

proof fn lemma_split_before_name(dir: Seq<char>, name: Seq<char>)
    requires
        !name.contains('/'),
    ensures
        split_on(dir.push('/') + name, '/') == split_on(dir, '/').push(name),
    decreases name.len(),
{
    let s = dir.push('/') + name;
    if name.len() == 0 {
        assert(s =~= dir.push('/'));
        assert(s.drop_last() =~= dir);
        assert(name =~= Seq::<char>::empty());
        assert(split_on(s, '/') =~= split_on(dir, '/').push(name));
    } else {
        let front = name.drop_last();
        if front.contains('/') {
            let k = choose|k: int| 0 <= k < front.len() && front[k] == '/';
            assert(name[k] == '/');
        }
        assert(name.contains(name.last()));
        lemma_split_before_name(dir, front);
        assert(s.drop_last() =~= dir.push('/') + front);
        assert(front.push(name.last()) =~= name);
        assert(split_on(s, '/') =~= split_on(dir, '/').push(name));
    }
}

/// The name of a file is what stands behind the last slash of its path; a
/// slash at the end does not count.
pub proof fn law_names_stand_behind_the_last_slash(dir: Seq<char>, name: Seq<char>)
    requires
        is_plain_name(name),
    ensures
        file_name(dir + seq!['/'] + name) == Some(name),
        file_name(dir + seq!['/'] + name + seq!['/']) == Some(name),
        file_name(name) == Some(name),
{
    reveal_strlit(".");
    reveal_strlit("..");
    assert("."@[0] == '.' && ".."@[0] == '.');
    let path = dir + seq!['/'] + name;
    assert(path =~= dir.push('/') + name);
    lemma_split_before_name(dir, name);
    let parts = split_on(path, '/');
    assert(parts.drop_last() =~= split_on(dir, '/'));
    assert(path_parts(parts).last() == name);
    let longer = path + seq!['/'];
    assert(longer =~= path.push('/') + Seq::<char>::empty());
    lemma_split_before_name(path, Seq::empty());
    let more = split_on(longer, '/');
    assert(more.drop_last() =~= parts);
    assert(path_parts(more) == path_parts(parts));
    lemma_whole(name);
    reveal_with_fuel(path_parts, 2);
    assert(seq![name].drop_last() =~= Seq::<Seq<char>>::empty());
}

proof fn lemma_whole(name: Seq<char>)
    requires
        !name.contains('/'),
    ensures
        split_on(name, '/') == seq![name],
    decreases name.len(),
{
    if name.len() > 0 {
        let front = name.drop_last();
        if front.contains('/') {
            let k = choose|k: int| 0 <= k < front.len() && front[k] == '/';
            assert(name[k] == '/');
        }
        assert(name.contains(name.last()));
        lemma_whole(front);
        assert(front.push(name.last()) =~= name);
        assert(split_on(name, '/') =~= seq![name]);
    } else {
        assert(name =~= Seq::<char>::empty());
        assert(split_on(name, '/') =~= seq![name]);
    }
}

/// A file stands in the directory before the last slash of its path; the root
/// stands in no directory.
pub proof fn law_parents_stand_before_the_last_slash(dir: Seq<char>, name: Seq<char>)
    requires
        is_plain_name(name),
        name.last() != '.',
        dir.len() > 0,
        dir.last() != '/',
        dir.last() != '.',
    ensures
        parent(dir + seq!['/'] + name) == Some(dir),
        parent(seq!['/'] + name) == Some(seq!['/']),
        parent(seq!['/']) is None,
        parent(Seq::empty()) is None,
{
    reveal_strlit("/");
    assert("/"@ =~= seq!['/']);
    let path = dir + seq!['/'] + name;
    assert(name.contains(name.last()));
    assert(strip_tail(path) == path);
    lemma_slash_before_name(dir, name);
    assert(path =~= dir.push('/') + name);
    assert(path.take((dir.len() + 1) as int) =~= dir.push('/'));
    reveal_with_fuel(strip_tail, 2);
    assert(dir.push('/').drop_last() =~= dir);
    assert(strip_tail(dir.push('/')) == dir);
    assert(path.len() > 1);
    let top = seq!['/'] + name;
    assert(top =~= Seq::<char>::empty().push('/') + name);
    lemma_slash_before_name(Seq::empty(), name);
    assert(strip_tail(top) == top);
    assert(top.take(1) =~= seq!['/']);
    assert(top[1] == name[0]);
    assert(name.contains(name[0]));
    assert(top.len() > 1);
}

proof fn lemma_slash_before_name(dir: Seq<char>, name: Seq<char>)
    requires
        !name.contains('/'),
    ensures
        behind_slash(dir.push('/') + name) == dir.len() + 1,
    decreases name.len(),
{
    let s = dir.push('/') + name;
    if name.len() == 0 {
        assert(s =~= dir.push('/'));
    } else {
        let front = name.drop_last();
        if front.contains('/') {
            let k = choose|k: int| 0 <= k < front.len() && front[k] == '/';
            assert(name[k] == '/');
        }
        assert(name.contains(name.last()));
        lemma_slash_before_name(dir, front);
        assert(s.drop_last() =~= dir.push('/') + front);
    }
}

} // verus!

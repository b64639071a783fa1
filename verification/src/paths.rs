//! Paths as texts whose parts are separated by `/`.

use vstd::prelude::*;
use vstd::string::StringExecFns;

use crate::ast_deps;
use crate::text;
use crate::text::{
    chars_of, join_texts, rfind_before, same_text, slice_text, split_text,
};

verus! {

/// Whether a piece between separators is a part of its path: empty pieces and
/// `.` are not, except for a `.` at the very start of a relative path.
pub open spec fn is_part(pieces: Seq<Seq<char>>, i: int) -> bool {
    pieces[i].len() > 0 && (pieces[i] != "."@ || i == 0)
}

/// The parts among the first `n` pieces.
pub open spec fn parts_in(pieces: Seq<Seq<char>>, n: int) -> Seq<Seq<char>>
    decreases n,
{
    if n <= 0 {
        seq![]
    } else if is_part(pieces, n - 1) {
        parts_in(pieces, n - 1).push(pieces[n - 1])
    } else {
        parts_in(pieces, n - 1)
    }
}

/// The parts of a path.
pub open spec fn path_parts(path: Seq<char>) -> Seq<Seq<char>> {
    let pieces = text::split_char(path, '/');
    parts_in(pieces, pieces.len() as int)
}

/// Whether a path starts at the root.
pub open spec fn is_absolute(path: Seq<char>) -> bool {
    path.len() > 0 && path[0] == '/'
}

/// Whether a part is the name of a file or directory.
pub open spec fn is_name(part: Seq<char>) -> bool {
    part != "."@ && part != ".."@
}

/// The last part of a path, if it is a name.
pub open spec fn file_name(path: Seq<char>) -> Option<Seq<char>> {
    let parts = path_parts(path);
    if parts.len() > 0 && is_name(parts.last()) {
        Some(parts.last())
    } else {
        None
    }
}

/// The last part but one of a path, if it is a name: the name of the directory
/// that holds it.
pub open spec fn parent_name(path: Seq<char>) -> Option<Seq<char>> {
    let parts = path_parts(path);
    if parts.len() > 1 && is_name(parts[parts.len() - 2]) {
        Some(parts[parts.len() - 2])
    } else {
        None
    }
}

/// The text after the last dot of a file name; a name without a dot, or with
/// its only dot at the start, has no extension.
pub open spec fn extension(path: Seq<char>) -> Option<Seq<char>> {
    match file_name(path) {
        Some(name) => {
            let i = text::rfind_char(name, '.');
            if i > 0 {
                Some(name.skip(i + 1))
            } else {
                None
            }
        },
        None => None,
    }
}

/// The path with the given parts, from the root or not.
pub open spec fn path_of(absolute: bool, parts: Seq<Seq<char>>) -> Seq<char> {
    if absolute {
        "/"@ + text::join(parts, "/"@)
    } else {
        text::join(parts, "/"@)
    }
}

/// The end of the pieces before `i`, and from `lo` on, up to their last part.
pub open spec fn parts_end(pieces: Seq<Seq<char>>, i: int, lo: int) -> int
    decreases i - lo,
{
    if i <= lo {
        lo
    } else if is_part(pieces, i - 1) {
        i
    } else {
        parts_end(pieces, i - 1, lo)
    }
}

/// The text of a path up to the last part among its first `n` pieces.
pub open spec fn text_up_to(path: Seq<char>, n: int) -> Seq<char> {
    let pieces = text::split_char(path, '/');
    let end = parts_end(pieces, n, 0);
    if end > 0 {
        text::join(pieces.take(end), "/"@)
    } else if is_absolute(path) {
        "/"@
    } else {
        seq![]
    }
}

/// `name` in the directory `dir`.
pub open spec fn entry_of(dir: Seq<char>, name: Seq<char>) -> Seq<char> {
    if dir.len() == 0 || dir.last() == '/' {
        dir + name
    } else {
        dir + "/"@ + name
    }
}

/// `path` with its last part replaced by `name`; a path that ends in no name
/// has it put behind. What stands before is kept as it is.
pub open spec fn with_file_name(path: Seq<char>, name: Seq<char>) -> Seq<char> {
    let pieces = text::split_char(path, '/');
    if file_name(path) is Some {
        entry_of(text_up_to(path, parts_end(pieces, pieces.len() as int, 0) - 1), name)
    } else {
        entry_of(path, name)
    }
}

/// The parts of `path` below `root`, if it is at or below it.
pub open spec fn below(path: Seq<char>, root: Seq<char>) -> Option<Seq<Seq<char>>> {
    let p = path_parts(path);
    let r = path_parts(root);
    if r.len() == 0 && !is_absolute(root) {
        Some(p)
    } else if is_absolute(path) == is_absolute(root) && r.is_prefix_of(p) {
        Some(p.skip(r.len() as int))
    } else {
        None
    }
}

/// The first piece from `i` on that is a part, or the end.
pub open spec fn next_part(pieces: Seq<Seq<char>>, i: int) -> int
    decreases pieces.len() - i,
{
    if i >= pieces.len() || is_part(pieces, i) {
        i
    } else {
        next_part(pieces, i + 1)
    }
}

/// The piece behind the next `n` parts from `i` on.
pub open spec fn behind_parts(pieces: Seq<Seq<char>>, i: int, n: int) -> int
    decreases pieces.len() - i,
{
    if n <= 0 || i >= pieces.len() {
        i
    } else if is_part(pieces, i) {
        behind_parts(pieces, i + 1, n - 1)
    } else {
        behind_parts(pieces, i + 1, n)
    }
}

/// The text of `path` below `root`, if it is at or below it: from the first
/// part behind the root to the last one, as it stands in the path.
pub open spec fn text_below(path: Seq<char>, root: Seq<char>) -> Option<Seq<char>> {
    let pieces = text::split_char(path, '/');
    let n = pieces.len() as int;
    let above = path_parts(root).len() as int;
    if below(path, root) is None {
        None
    } else if above == 0 && !is_absolute(root) {
        Some(text_up_to(path, n))
    } else {
        let from = next_part(pieces, behind_parts(pieces, 0, above));
        Some(text::join(pieces.subrange(from, parts_end(pieces, n, from)), "/"@))
    }
}

/// The parts of a path.
pub fn parts_of(path: &str) -> (parts: Vec<String>)
    ensures
        text::views(parts@) == path_parts(path@),
{
    let pieces: Vec<String> = split_text(path, '/');
    let ghost all = text::split_char(path@, '/');
    let mut parts: Vec<String> = Vec::new();
    let mut i: usize = 0;
    assert(text::views(parts@) =~= seq![]);
    while i < pieces.len()
        invariant
            i <= pieces@.len(),
            all == text::views(pieces@),
            text::views(parts@) == parts_in(all, i as int),
        decreases pieces@.len() - i,
    {
        let ghost before = text::views(parts@);
        assert(all[i as int] == pieces@[i as int]@);
        if !pieces[i].as_str().is_empty() && (!same_text(pieces[i].as_str(), ".") || i == 0) {
            parts.push(pieces[i].clone());
            assert(text::views(parts@) =~= before.push(all[i as int]));
        }
        i = i + 1;
    }
    parts
}

/// Whether a path starts at the root.
pub fn starts_at_root(path: &str) -> (b: bool)
    ensures
        b == is_absolute(path@),
{
    let v: Vec<char> = chars_of(path);
    v.len() > 0 && v[0] == '/'
}

/// Whether a part is the name of a file or directory.
pub fn part_is_name(part: &str) -> (b: bool)
    ensures
        b == is_name(part@),
{
    !same_text(part, ".") && !same_text(part, "..")
}

/// The last part of a path, if it is a name.
pub fn file_name_of(path: &str) -> (name: Option<String>)
    ensures
        ast_deps::option_view(name) == file_name(path@),
{
    let mut parts: Vec<String> = parts_of(path);
    let ghost all = path_parts(path@);
    match parts.pop() {
        Some(last) => {
            assert(all.last() == last@);
            if part_is_name(last.as_str()) {
                Some(last)
            } else {
                None
            }
        },
        None => None,
    }
}

/// The last part but one of a path, if it is a name.
pub fn parent_name_of(path: &str) -> (name: Option<String>)
    ensures
        ast_deps::option_view(name) == parent_name(path@),
{
    let parts: Vec<String> = parts_of(path);
    let n: usize = parts.len();
    if n > 1 {
        assert(path_parts(path@)[n - 2] == parts@[n - 2]@);
        if part_is_name(parts[n - 2].as_str()) {
            return Some(parts[n - 2].clone());
        }
    }
    None
}

/// The text after the last dot of a file name.
pub fn extension_of(path: &str) -> (ext: Option<String>)
    ensures
        ast_deps::option_view(ext) == extension(path@),
{
    match file_name_of(path) {
        Some(name) => {
            let v: Vec<char> = chars_of(name.as_str());
            assert(v@.take(v@.len() as int) =~= v@);
            match rfind_before(&v, v.len(), '.') {
                Some(i) => {
                    if i > 0 {
                        assert(v@.subrange(i + 1, v@.len() as int) =~= v@.skip(i + 1));
                        Some(slice_text(&v, i + 1, v.len()))
                    } else {
                        None
                    }
                },
                None => None,
            }
        },
        None => None,
    }
}

/// Whether a piece between separators is a part of its path.
fn piece_is_part(pieces: &Vec<String>, i: usize) -> (b: bool)
    requires
        i < pieces@.len(),
    ensures
        b == is_part(text::views(pieces@), i as int),
{
    assert(text::views(pieces@)[i as int] == pieces@[i as int]@);
    !pieces[i].as_str().is_empty() && (!same_text(pieces[i].as_str(), ".") || i == 0)
}

/// The end of the pieces before `i`, and from `lo` on, up to their last part.
fn end_of_parts(pieces: &Vec<String>, i: usize, lo: usize) -> (end: usize)
    requires
        lo <= i <= pieces@.len(),
    ensures
        end == parts_end(text::views(pieces@), i as int, lo as int),
        lo <= end <= i,
{
    let mut end: usize = i;
    while end > lo && !piece_is_part(pieces, end - 1)
        invariant
            lo <= end <= i <= pieces@.len(),
            parts_end(text::views(pieces@), end as int, lo as int) == parts_end(
                text::views(pieces@),
                i as int,
                lo as int,
            ),
        decreases end,
    {
        end = end - 1;
    }
    end
}

/// The text of the pieces `from..to`.
fn text_of_pieces(pieces: &Vec<String>, from: usize, to: usize) -> (t: String)
    requires
        from <= to <= pieces@.len(),
    ensures
        t@ == text::join(text::views(pieces@).subrange(from as int, to as int), "/"@),
{
    let ghost target = text::views(pieces@).subrange(from as int, to as int);
    let mut some: Vec<String> = Vec::new();
    let mut i: usize = from;
    assert(text::views(some@) =~= target.take(0));
    while i < to
        invariant
            from <= i <= to <= pieces@.len(),
            target == text::views(pieces@).subrange(from as int, to as int),
            text::views(some@) == target.take(i - from),
        decreases to - i,
    {
        let ghost before = text::views(some@);
        some.push(pieces[i].clone());
        proof {
            let k = i - from;
            assert(target[k] == pieces@[i as int]@);
            assert(text::views(some@) =~= before.push(target[k]));
            assert(text::views(some@) =~= target.take(k + 1));
        }
        i = i + 1;
    }
    assert(target.take(target.len() as int) =~= target);
    join_texts(&some, "/")
}

/// The text of a path up to the last part among its first `n` pieces.
fn text_before(path: &str, pieces: &Vec<String>, n: usize) -> (t: String)
    requires
        text::views(pieces@) == text::split_char(path@, '/'),
        n <= pieces@.len(),
    ensures
        t@ == text_up_to(path@, n as int),
{
    let end: usize = end_of_parts(pieces, n, 0);
    if end > 0 {
        assert(text::views(pieces@).subrange(0, end as int) =~= text::views(pieces@).take(
            end as int,
        ));
        text_of_pieces(pieces, 0, end)
    } else if starts_at_root(path) {
        "/".to_owned()
    } else {
        String::new()
    }
}

/// `name` in the directory `dir`.
fn path_of_entry(dir: &str, name: &str) -> (path: String)
    ensures
        path@ == entry_of(dir@, name@),
{
    let v: Vec<char> = chars_of(dir);
    let mut path: String = dir.to_owned();
    if v.len() > 0 && v[v.len() - 1] != '/' {
        path.append("/");
    }
    path.append(name);
    path
}

/// `path` with its last part replaced by `name`.
pub fn replace_file_name(path: &str, name: &str) -> (r: String)
    ensures
        r@ == with_file_name(path@, name@),
{
    if file_name_of(path).is_none() {
        return path_of_entry(path, name);
    }
    let pieces: Vec<String> = split_text(path, '/');
    let end: usize = end_of_parts(&pieces, pieces.len(), 0);
    proof {
        lemma_parts_end(text::views(pieces@), pieces@.len() as int);
        assert(end > 0);
    }
    let dir: String = text_before(path, &pieces, end - 1);
    path_of_entry(dir.as_str(), name)
}

/// Behind the last part there are no parts.
proof fn lemma_parts_end(pieces: Seq<Seq<char>>, i: int)
    requires
        0 <= i <= pieces.len(),
    ensures
        0 <= parts_end(pieces, i, 0) <= i,
        parts_in(pieces, i) == parts_in(pieces, parts_end(pieces, i, 0)),
        parts_end(pieces, i, 0) > 0 ==> is_part(pieces, parts_end(pieces, i, 0) - 1),
    decreases i,
{
    if i > 0 && !is_part(pieces, i - 1) {
        lemma_parts_end(pieces, i - 1);
    }
}

/// The parts among the first pieces depend on these alone.
proof fn lemma_same_pieces(a: Seq<Seq<char>>, b: Seq<Seq<char>>, n: int)
    requires
        0 <= n <= a.len(),
        n <= b.len(),
        forall|i: int| 0 <= i < n ==> a[i] == b[i],
    ensures
        parts_in(a, n) == parts_in(b, n),
    decreases n,
{
    if n > 0 {
        lemma_same_pieces(a, b, n - 1);
    }
}

/// A path whose file name is replaced has the same parts but for the last one.
pub proof fn lemma_with_file_name(path: Seq<char>, name: Seq<char>)
    requires
        file_name(path) is Some,
        is_plain_part(name),
    ensures
        path_parts(with_file_name(path, name)) == path_parts(path).drop_last().push(name),
{
    reveal_strlit("/");
    assert("/"@ =~= seq!['/']);
    let pieces = text::split_char(path, '/');
    let n = pieces.len() as int;
    text::lemma_split_char_pieces(path, '/');
    lemma_parts_end(pieces, n);
    let e = parts_end(pieces, n, 0);
    assert(e > 0);
    assert(path_parts(path) == parts_in(pieces, e - 1).push(pieces[e - 1]));
    assert(path_parts(path).drop_last() =~= parts_in(pieces, e - 1));
    lemma_parts_end(pieces, e - 1);
    let k = parts_end(pieces, e - 1, 0);
    let dir = text_up_to(path, e - 1);
    if k > 0 {
        let head = pieces.take(k);
        let all = head.push(name);
        assert(dir == text::join(head, seq!['/']));
        assert(head.last() == pieces[k - 1]);
        assert(!pieces[k - 1].contains('/'));
        assert(dir.len() > 0 && dir.last() == head.last().last()) by {
            if k > 1 {
                assert(dir == text::join(head.drop_last(), seq!['/']) + seq!['/'] + head.last());
            } else {
                assert(dir == head[0]);
            }
        }
        assert(dir.last() != '/') by {
            if dir.last() == '/' {
                assert(pieces[k - 1][pieces[k - 1].len() - 1] == '/');
                assert(pieces[k - 1].contains('/'));
            }
        }
        assert(all.drop_last() =~= head);
        assert(with_file_name(path, name) == text::join(all, seq!['/']));
        assert forall|i: int| 0 <= i < all.len() implies !(#[trigger] all[i]).contains('/') by {
            if i < k {
                assert(all[i] == pieces[i]);
            }
        }
        text::lemma_split_join(all, '/');
        lemma_same_pieces(all, pieces, k);
        assert(is_part(all, k));
    } else if is_absolute(path) {
        let all = seq![Seq::<char>::empty(), name];
        assert(all.drop_last() =~= seq![Seq::<char>::empty()]);
        assert(text::join(seq![Seq::<char>::empty()], seq!['/']) =~= seq![]);
        assert(all.last() == name);
        assert(text::join(all, seq!['/']) =~= "/"@ + name);
        text::lemma_split_join(all, '/');
        assert(is_part(all, 1));
        assert(parts_in(all, 0) =~= seq![]);
        assert(parts_in(all, 1) =~= seq![]);
        assert(parts_in(all, 2) =~= seq![name]);
    } else {
        let all = seq![name];
        assert(with_file_name(path, name) =~= name);
        assert(text::join(all, seq!['/']) == name);
        text::lemma_split_join(all, '/');
        assert(is_part(all, 0));
        assert(parts_in(all, 0) =~= seq![]);
        assert(parts_in(all, 1) =~= seq![name]);
    }
}

/// The path made of the first `n` of `parts`.
pub fn join_path(absolute: bool, parts: &Vec<String>, n: usize) -> (path: String)
    requires
        n <= parts@.len(),
    ensures
        path@ == path_of(absolute, text::views(parts@).take(n as int)),
{
    let ghost all = text::views(parts@);
    let mut first: Vec<String> = Vec::new();
    let mut i: usize = 0;
    assert(text::views(first@) =~= all.take(0));
    while i < n
        invariant
            i <= n <= parts@.len(),
            all == text::views(parts@),
            text::views(first@) == all.take(i as int),
        decreases n - i,
    {
        let ghost before = text::views(first@);
        first.push(parts[i].clone());
        assert(text::views(first@) =~= before.push(all[i as int]));
        assert(text::views(first@) =~= all.take(i + 1));
        i = i + 1;
    }
    let joined: String = join_texts(&first, "/");
    if absolute {
        let mut path: String = "/".to_owned();
        path.append(joined.as_str());
        path
    } else {
        joined
    }
}

/// Whether `path` is at or below `root`.
pub fn is_below(path: &str, root: &str) -> (b: bool)
    ensures
        b == (below(path@, root@) is Some),
{
    let p: Vec<String> = parts_of(path);
    let r: Vec<String> = parts_of(root);
    let ghost ps = path_parts(path@);
    let ghost rs = path_parts(root@);
    let from_root: bool = starts_at_root(root);
    if r.len() == 0 && !from_root {
        return true;
    }
    if starts_at_root(path) != from_root || r.len() > p.len() {
        return false;
    }
    let mut i: usize = 0;
    while i < r.len()
        invariant
            i <= r@.len() <= p@.len(),
            ps == text::views(p@),
            rs == text::views(r@),
            ps == path_parts(path@),
            rs == path_parts(root@),
            rs.len() > 0 || is_absolute(root@),
            forall|j: int| 0 <= j < i ==> ps[j] == rs[j],
        decreases r@.len() - i,
    {
        assert(ps[i as int] == p@[i as int]@);
        assert(rs[i as int] == r@[i as int]@);
        if !same_text(p[i].as_str(), r[i].as_str()) {
            assert(ps.subrange(0, rs.len() as int)[i as int] != rs[i as int]);
            return false;
        }
        i = i + 1;
    }
    assert(ps.subrange(0, rs.len() as int) =~= rs);
    true
}

/// The text of `path` below `root`, if it is at or below it.
pub fn relative_to(path: &str, root: &str) -> (rel: Option<String>)
    ensures
        ast_deps::option_view(rel) == text_below(path@, root@),
{
    if !is_below(path, root) {
        return None;
    }
    let pieces: Vec<String> = split_text(path, '/');
    let above: usize = parts_of(root).len();
    if above == 0 && !starts_at_root(root) {
        return Some(text_before(path, &pieces, pieces.len()));
    }
    let ghost all = text::views(pieces@);
    let mut from: usize = 0;
    let mut left: usize = above;
    while left > 0 && from < pieces.len()
        invariant
            from <= pieces@.len(),
            all == text::views(pieces@),
            behind_parts(all, from as int, left as int) == behind_parts(all, 0, above as int),
        decreases pieces@.len() - from,
    {
        if piece_is_part(&pieces, from) {
            left = left - 1;
        }
        from = from + 1;
    }
    let ghost behind = from;
    while from < pieces.len() && !piece_is_part(&pieces, from)
        invariant
            from <= pieces@.len(),
            all == text::views(pieces@),
            next_part(all, from as int) == next_part(all, behind as int),
        decreases pieces@.len() - from,
    {
        from = from + 1;
    }
    let to: usize = end_of_parts(&pieces, pieces.len(), from);
    Some(text_of_pieces(&pieces, from, to))
}

/// Whether a text can be a part of a path behind the first one.
pub open spec fn is_plain_part(part: Seq<char>) -> bool {
    part.len() > 0 && !part.contains('/') && part != "."@
}

/// No part of a path holds a separator or is empty.
pub proof fn lemma_parts_are_plain(path: Seq<char>, n: int)
    requires
        0 <= n <= text::split_char(path, '/').len(),
    ensures
        forall|i: int|
            0 <= i < parts_in(text::split_char(path, '/'), n).len() ==> {
                let part = #[trigger] parts_in(text::split_char(path, '/'), n)[i];
                part.len() > 0 && !part.contains('/')
            },
    decreases n,
{
    let pieces = text::split_char(path, '/');
    text::lemma_split_char_pieces(path, '/');
    if n > 0 {
        lemma_parts_are_plain(path, n - 1);
        let before = parts_in(pieces, n - 1);
        assert(!pieces[n - 1].contains('/'));
        assert forall|i: int| 0 <= i < parts_in(pieces, n).len() implies {
            let part = #[trigger] parts_in(pieces, n)[i];
            part.len() > 0 && !part.contains('/')
        } by {
            if i < before.len() {
                assert(parts_in(pieces, n)[i] == before[i]);
            }
        }
    }
}

// ---------------------------------------------------------------------------
// Entries of directories
// ---------------------------------------------------------------------------

/// The pieces of a path and a name behind it.
proof fn lemma_entry_pieces(dir: Seq<char>, name: Seq<char>)
    requires
        !name.contains('/'),
    ensures
        text::split_char(dir + "/"@ + name, '/') == text::split_char(dir, '/').push(name),
{
    reveal_strlit("/");
    assert("/"@ =~= seq!['/']);
    text::lemma_split_at(dir, name, '/');
    text::lemma_split_join(seq![name], '/');
    assert(text::join(seq![name], seq!['/']) == name);
    assert(text::split_char(dir, '/') + seq![name] =~= text::split_char(dir, '/').push(name));
}

/// A name behind a path is its last part, and the others are those of the
/// path: what the entry of a directory is called, where it stands, and what
/// its extension is, can be read off its path.
pub proof fn law_an_entry_is_named_last(dir: Seq<char>, name: Seq<char>, stem: Seq<char>, ext: Seq<char>)
    requires
        is_plain_part(name),
        name != ".."@,
    ensures
        path_parts(dir + "/"@ + name) == path_parts(dir).push(name),
        file_name(dir + "/"@ + name) == Some(name),
        parent_name(dir + "/"@ + name) == file_name(dir),
        stem.len() > 0 && !ext.contains('.') && name == stem + "."@ + ext ==> extension(
            dir + "/"@ + name,
        ) == Some(ext),
        !name.contains('.') ==> extension(dir + "/"@ + name) is None,
        name.len() > 0 && name[0] == '.' && !name.skip(1).contains('.') ==> extension(
            dir + "/"@ + name,
        ) is None,
{
    reveal_strlit(".");
    let path = dir + "/"@ + name;
    let pieces = text::split_char(dir, '/');
    lemma_entry_pieces(dir, name);
    text::lemma_split_char_nonempty(dir, '/');
    let all = pieces.push(name);
    lemma_same_pieces(all, pieces, pieces.len() as int);
    assert(is_part(all, pieces.len() as int));
    let parts = path_parts(path);
    assert(parts == path_parts(dir).push(name));
    assert(file_name(path) == Some(name));
    let before = path_parts(dir);
    if before.len() > 0 {
        assert(parts[parts.len() - 2] == before.last());
    }
    if stem.len() > 0 && !ext.contains('.') && name == stem + "."@ + ext {
        assert forall|j: int| stem.len() < j < name.len() implies name[j] != '.' by {
            assert(name[j] == ext[j - stem.len() - 1]);
            if name[j] == '.' {
                assert(ext.contains('.'));
            }
        }
        text::lemma_rfind_char_is(name, '.', stem.len() as int);
        assert(name.skip(stem.len() as int + 1) =~= ext);
    }
    if !name.contains('.') {
        text::lemma_rfind_char(name, '.');
        let i = text::rfind_char(name, '.');
        if i >= 0 {
            assert(name.contains(name[i]));
        }
    }
    if name.len() > 0 && name[0] == '.' && !name.skip(1).contains('.') {
        text::lemma_rfind_char(name, '.');
        let i = text::rfind_char(name, '.');
        if i > 0 {
            assert(name.skip(1)[i - 1] == '.');
            assert(name.skip(1).contains('.'));
        }
    }
}

/// The pieces behind all parts up to one that is a part itself.
proof fn lemma_behind_parts(pieces: Seq<Seq<char>>, i: int, m: int, n: int)
    requires
        0 <= i < m <= pieces.len(),
        is_part(pieces, m - 1),
        n == parts_in(pieces, m).len() - parts_in(pieces, i).len(),
    ensures
        n > 0,
        behind_parts(pieces, i, n) == m,
    decreases m - i,
{
    lemma_parts_grow(pieces, i, m - 1);
    if i + 1 < m {
        lemma_behind_parts(pieces, i + 1, m, parts_in(pieces, m).len() - parts_in(pieces, i + 1).len());
    } else if is_part(pieces, i) {
        assert(behind_parts(pieces, i + 1, 0) == i + 1);
    }
}

/// More pieces have no fewer parts.
proof fn lemma_parts_grow(pieces: Seq<Seq<char>>, i: int, m: int)
    requires
        0 <= i <= m,
    ensures
        parts_in(pieces, i).len() <= parts_in(pieces, m).len(),
    decreases m - i,
{
    if i < m {
        lemma_parts_grow(pieces, i, m - 1);
    }
}

/// Whether a path is written with a part at its end.
pub open spec fn ends_in_part(path: Seq<char>) -> bool {
    let pieces = text::split_char(path, '/');
    is_part(pieces, pieces.len() - 1)
}

/// Plain parts behind the pieces of a path.
proof fn lemma_parts_behind(pieces: Seq<Seq<char>>, names: Seq<Seq<char>>, n: int)
    requires
        pieces.len() > 0,
        0 <= n <= names.len(),
        forall|i: int| 0 <= i < names.len() ==> is_plain_part(#[trigger] names[i]),
    ensures
        parts_in(pieces + names, pieces.len() + n) == parts_in(pieces, pieces.len() as int)
            + names.take(n),
    decreases n,
{
    let all = pieces + names;
    let m = pieces.len() as int;
    if n == 0 {
        lemma_same_pieces(all, pieces, m);
        assert(parts_in(pieces, m) + names.take(0) =~= parts_in(pieces, m));
    } else {
        lemma_parts_behind(pieces, names, n - 1);
        assert(all[m + n - 1] == names[n - 1]);
        assert(is_plain_part(names[n - 1]));
        assert(is_part(all, m + n - 1));
        assert((parts_in(pieces, m) + names.take(n - 1)).push(names[n - 1]) =~= parts_in(pieces, m)
            + names.take(n));
    }
}

/// What stands behind a root and a separator is the path below that root;
/// nothing else is below it.
pub proof fn law_what_follows_a_root_is_below_it(root: Seq<char>, names: Seq<Seq<char>>)
    requires
        ends_in_part(root),
        names.len() > 0,
        forall|i: int| 0 <= i < names.len() ==> is_plain_part(#[trigger] names[i]),
    ensures
        below(root + "/"@ + text::join(names, "/"@), root) == Some(names),
        text_below(root + "/"@ + text::join(names, "/"@), root) == Some(text::join(names, "/"@)),
{
    reveal_strlit("/");
    assert("/"@ =~= seq!['/']);
    let rest = text::join(names, "/"@);
    let path = root + "/"@ + rest;
    let own = text::split_char(root, '/');
    text::lemma_split_char_nonempty(root, '/');
    assert forall|i: int| 0 <= i < names.len() implies !(#[trigger] names[i]).contains('/') by {
        assert(is_plain_part(names[i]));
    }
    text::lemma_split_join(names, '/');
    text::lemma_split_at(root, rest, '/');
    let pieces = text::split_char(path, '/');
    assert(pieces =~= own + names);
    let m = own.len() as int;
    let n = pieces.len() as int;
    lemma_parts_behind(own, names, names.len() as int);
    assert(names.take(names.len() as int) =~= names);
    let parts = path_parts(root);
    assert(path_parts(path) == parts + names);
    assert(parts.len() > 0);
    assert(parts.is_prefix_of(path_parts(path)));
    assert((parts + names).skip(parts.len() as int) =~= names);
    assert(root.len() > 0) by {
        if root.len() == 0 {
            assert(own =~= seq![root]);
        }
    }
    assert(is_absolute(path) == is_absolute(root));
    lemma_same_pieces(pieces, own, m);
    assert(pieces[m - 1] == own[m - 1]);
    assert(parts_in(pieces, 0) =~= seq![]);
    lemma_behind_parts(pieces, 0, m, parts.len() as int);
    assert(pieces[m] == names[0]);
    assert(is_plain_part(names[0]));
    assert(is_part(pieces, m));
    assert(next_part(pieces, m) == m);
    assert(pieces[n - 1] == names[names.len() - 1]);
    assert(is_plain_part(names[names.len() - 1]));
    assert(is_part(pieces, n - 1));
    assert(parts_end(pieces, n, m) == n);
    assert(pieces.subrange(m, n) =~= names);
}

/// The name of an entry is replaced by putting the other one behind its
/// directory.
pub proof fn law_a_sibling_stands_in_the_same_directory(
    dir: Seq<char>,
    name: Seq<char>,
    other: Seq<char>,
)
    requires
        ends_in_part(dir),
        is_plain_part(name),
        name != ".."@,
    ensures
        with_file_name(dir + "/"@ + name, other) == dir + "/"@ + other,
{
    reveal_strlit("/");
    assert("/"@ =~= seq!['/']);
    let path = dir + "/"@ + name;
    law_an_entry_is_named_last(dir, name, seq![], seq![]);
    lemma_entry_pieces(dir, name);
    let own = text::split_char(dir, '/');
    text::lemma_split_char_nonempty(dir, '/');
    let pieces = own.push(name);
    let m = own.len() as int;
    assert(is_part(pieces, m));
    assert(parts_end(pieces, m + 1, 0) == m + 1);
    assert(pieces[m - 1] == own[m - 1]);
    assert(is_part(pieces, m - 1));
    assert(parts_end(pieces, m, 0) == m);
    assert(pieces.take(m) =~= own);
    text::lemma_join_split(dir, '/');
    assert(text_up_to(path, m) == dir);
    text::lemma_split_char_pieces(dir, '/');
    let last = own[m - 1];
    assert(dir.len() > 0 && dir.last() == last.last()) by {
        if m > 1 {
            assert(dir == text::join(own.drop_last(), seq!['/']) + seq!['/'] + own.last());
        } else {
            assert(dir == own[0]);
        }
    }
    assert(dir.last() != '/') by {
        if dir.last() == '/' {
            assert(last[last.len() - 1] == '/');
            assert(last.contains('/'));
        }
    }
}

/// A path is below a root only where it starts with all parts of that root.
pub proof fn law_what_is_below_starts_with_the_root(path: Seq<char>, root: Seq<char>)
    requires
        path_parts(root).len() > 0,
    ensures
        below(path, root) is Some <==> is_absolute(path) == is_absolute(root) && path_parts(path).len()
            >= path_parts(root).len() && forall|i: int|
            0 <= i < path_parts(root).len() ==> #[trigger] path_parts(path)[i] == path_parts(
                root,
            )[i],
        text_below(path, root) is Some <==> below(path, root) is Some,
{
    let p = path_parts(path);
    let r = path_parts(root);
    if p.len() >= r.len() && forall|i: int| 0 <= i < r.len() ==> #[trigger] p[i] == r[i] {
        assert(p.take(r.len() as int) =~= r);
    }
    if r.is_prefix_of(p) {
        assert forall|i: int| 0 <= i < r.len() implies #[trigger] p[i] == r[i] by {
            assert(p.take(r.len() as int)[i] == r[i]);
        }
    }
}

/// An extension is what follows the last dot of a file name, unless that dot is
/// its first character.
pub proof fn law_extensions_follow_the_last_dot(path: Seq<char>, stem: Seq<char>, ext: Seq<char>)
    requires
        !ext.contains('.'),
    ensures
        file_name(path) == Some(stem + "."@ + ext) && stem.len() > 0 ==> extension(path) == Some(
            ext,
        ),
        file_name(path) == Some("."@ + ext) ==> extension(path) is None,
        file_name(path) == Some(ext) ==> extension(path) is None,
        file_name(path) is None ==> extension(path) is None,
{
    reveal_strlit(".");
    assert("."@ =~= seq!['.']);
    assert forall|j: int| 0 <= j < ext.len() implies ext[j] != '.' by {
        if ext[j] == '.' {
            assert(ext.contains('.'));
        }
    }
    let name = stem + "."@ + ext;
    text::lemma_rfind_char_is(name, '.', stem.len() as int);
    assert(name.skip(stem.len() as int + 1) =~= ext);
    text::lemma_rfind_char_is("."@ + ext, '.', 0);
    text::lemma_rfind_char_is(ext, '.', -1);
}

/// The directory that holds a file is named by the last part but one; where
/// that leads up, or there is none, it has no name.
pub proof fn law_the_last_part_but_one_names_the_directory(
    path: Seq<char>,
    above: Seq<Seq<char>>,
    dir: Seq<char>,
    name: Seq<char>,
)
    ensures
        path_parts(path) == above.push(dir).push(name) && dir != "."@ && dir != ".."@
            ==> parent_name(path) == Some(dir),
        path_parts(path) == above.push(".."@).push(name) ==> parent_name(path) is None,
        path_parts(path) == seq![name] ==> parent_name(path) is None,
        path_parts(path) == above.push(name) && name != "."@ && name != ".."@ ==> file_name(path)
            == Some(name),
        path_parts(path) == above.push(".."@) ==> file_name(path) is None,
{
}

/// Slashes in a row part no more than one does, and a dot between slashes is no
/// part; one at the start of a path is.
pub proof fn law_dots_and_empty_pieces_are_no_parts(pieces: Seq<Seq<char>>, piece: Seq<char>)
    ensures
        ({
            let n = pieces.len() as int;
            let all = pieces.push(piece);
            let before = parts_in(pieces, n);
            &&& piece.len() == 0 ==> parts_in(all, n + 1) == before
            &&& piece == "."@ && n > 0 ==> parts_in(all, n + 1) == before
            &&& piece == "."@ && n == 0 ==> parts_in(all, n + 1) == before.push(piece)
            &&& piece.len() > 0 && piece != "."@ ==> parts_in(all, n + 1) == before.push(piece)
        }),
{
    reveal_strlit(".");
    assert("."@.len() == 1);
    lemma_parts_of_first(pieces, pieces.push(piece), pieces.len() as int);
}

/// The parts of the first pieces do not depend on those behind.
proof fn lemma_parts_of_first(a: Seq<Seq<char>>, b: Seq<Seq<char>>, n: int)
    requires
        n <= a.len(),
        n <= b.len(),
        forall|i: int| 0 <= i < n ==> a[i] == b[i],
    ensures
        parts_in(a, n) == parts_in(b, n),
    decreases n,
{
    if n > 0 {
        lemma_parts_of_first(a, b, n - 1);
        assert(a[n - 1] == b[n - 1]);
    }
}

} // verus!

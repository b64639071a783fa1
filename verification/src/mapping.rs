//! Where the scripts of the catalog lie on a machine.

use vstd::prelude::*;

use crate::text;
use crate::text::{chars_of, concat, has_prefix, slice_text};

verus! {

/// Logical paths below `prefix` lie below `native`.
#[derive(Debug)]
pub struct PathMapping {
    pub prefix: String,
    pub native: String,
}

/// The values of mappings.
pub open spec fn mapping_views(v: Seq<PathMapping>) -> Seq<(Seq<char>, Seq<char>)> {
    v.map_values(|m: PathMapping| (m.prefix@, m.native@))
}

/// Whether a logical path is `prefix` or lies below it.
pub open spec fn is_mapped(path: Seq<char>, prefix: Seq<char>) -> bool {
    path == prefix || (prefix + "/"@).is_prefix_of(path)
}

/// Where a logical path lies: the first mapping that fits is applied, and
/// without one it lies where it says.
pub open spec fn native(path: Seq<char>, mappings: Seq<(Seq<char>, Seq<char>)>) -> Seq<char>
    decreases mappings.len(),
{
    if mappings.len() == 0 {
        path
    } else if is_mapped(path, mappings[0].0) {
        mappings[0].1 + path.skip(mappings[0].0.len() as int)
    } else {
        native(path, mappings.drop_first())
    }
}

/// Where a logical path lies.
pub fn to_native(path: &str, mappings: &Vec<PathMapping>) -> (r: String)
    ensures
        r@ == native(path@, mapping_views(mappings@)),
{
    let ghost all = mapping_views(mappings@);
    let v: Vec<char> = chars_of(path);
    let mut i: usize = 0;
    assert(all.skip(0) =~= all);
    while i < mappings.len()
        invariant
            i <= mappings@.len(),
            v@ == path@,
            all == mapping_views(mappings@),
            native(path@, all) == native(path@, all.skip(i as int)),
        decreases mappings@.len() - i,
    {
        let m: &PathMapping = &mappings[i];
        proof {
            assert(all.skip(i as int)[0] == (m.prefix@, m.native@));
            assert(all.skip(i as int).drop_first() =~= all.skip(i + 1));
        }
        let below: String = concat(m.prefix.as_str(), "/");
        if text::same_text(path, m.prefix.as_str()) || has_prefix(path, below.as_str()) {
            let n: usize = chars_of(m.prefix.as_str()).len();
            assert(n <= v@.len());
            let rest: String = slice_text(&v, n, v.len());
            assert(rest@ =~= path@.skip(n as int));
            return concat(m.native.as_str(), rest.as_str());
        }
        i = i + 1;
    }
    path.to_owned()
}

/// A mapping leaves what is below the prefix as it is: two paths that it
/// moves stay apart.
pub proof fn law_mapped_paths_stay_apart(
    a: Seq<char>,
    b: Seq<char>,
    prefix: Seq<char>,
    target: Seq<char>,
)
    requires
        is_mapped(a, prefix),
        is_mapped(b, prefix),
        native(a, seq![(prefix, target)]) == native(b, seq![(prefix, target)]),
    ensures
        a == b,
{
    let n = prefix.len() as int;
    let x = target + a.skip(n);
    let y = target + b.skip(n);
    assert(x == y);
    assert(x.skip(target.len() as int) =~= a.skip(n));
    assert(y.skip(target.len() as int) =~= b.skip(n));
    assert(a.take(n) =~= prefix);
    assert(b.take(n) =~= prefix);
    assert(a =~= a.take(n) + a.skip(n));
    assert(b =~= b.take(n) + b.skip(n));
}

/// A path that is a prefix, or that prefix and something behind a separator,
/// lies where the first mapping with such a prefix says, followed by what is
/// behind the prefix; a path that fits no mapping lies where it says.
pub proof fn law_the_first_mapping_that_fits_is_applied(
    mappings: Seq<(Seq<char>, Seq<char>)>,
    k: int,
    rest: Seq<char>,
    path: Seq<char>,
)
    requires
        0 <= k <= mappings.len(),
        k < mappings.len() ==> path == mappings[k].0 + rest && (rest.len() == 0 || rest[0] == '/'),
        forall|i: int|
            0 <= i < k ==> path != (#[trigger] mappings[i]).0 && !(mappings[i].0
                + "/"@).is_prefix_of(path),
    ensures
        native(path, mappings) == if k < mappings.len() {
            mappings[k].1 + rest
        } else {
            path
        },
    decreases mappings.len(),
{
    reveal_strlit("/");
    if mappings.len() > 0 {
        if k == 0 {
            let prefix = mappings[0].0;
            if rest.len() == 0 {
                assert(path =~= prefix);
            } else {
                assert(path.take(prefix.len() as int + 1) =~= prefix + "/"@);
            }
            assert(path.skip(prefix.len() as int) =~= rest);
        } else {
            let others = mappings.drop_first();
            assert(path != mappings[0].0);
            assert forall|i: int| 0 <= i < k - 1 implies path != (#[trigger] others[i]).0 && !(
            others[i].0 + "/"@).is_prefix_of(path) by {
                assert(others[i] == mappings[i + 1]);
            }
            if k < mappings.len() {
                assert(others[k - 1] == mappings[k]);
            }
            law_the_first_mapping_that_fits_is_applied(others, k - 1, rest, path);
        }
    }
}

} // verus!

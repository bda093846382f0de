//! Names of templates that are loaded from files ahead of time.

use vstd::prelude::*;
use crate::text::{chars_of, has_prefix, push_chars, starts_with};

verus! {

/// `path` with every backslash turned into a slash.
pub open spec fn with_slashes(path: Seq<char>) -> Seq<char> {
    path.map_values(
        |c: char|
            if c == '\\' {
                '/'
            } else {
                c
            },
    )
}

/// The name under which the template in the file `file_path` is known,
/// where the templates live under `root`: the path with slashes for
/// backslashes and without `root` and the slash after it. A file that is
/// not under `root` has no name.
pub open spec fn template_name_of(file_path: Seq<char>, root: Seq<char>) -> Option<Seq<char>> {
    let path = with_slashes(file_path);
    let prefix = root + seq!['/'];
    if starts_with(path, prefix) {
        Some(path.skip(prefix.len() as int))
    } else {
        None
    }
}

/// Turns every backslash of `path` into a slash.
pub fn normalize_path(path: &str) -> (r: Vec<char>)
    ensures
        r@ == with_slashes(path@),
{
    let chars = chars_of(path);
    let mut out: Vec<char> = Vec::new();
    let mut i: usize = 0;
    while i < chars.len()
        invariant
            i <= chars@.len(),
            chars@ == path@,
            out@ == with_slashes(path@).take(i as int),
        decreases chars@.len() - i,
    {
        let c = chars[i];
        proof {
            assert(with_slashes(path@).take(i + 1) =~= with_slashes(path@).take(i as int).push(
                with_slashes(path@)[i as int],
            ));
        }
        if c == '\\' {
            out.push('/');
        } else {
            out.push(c);
        }
        i = i + 1;
    }
    proof {
        assert(with_slashes(path@).take(chars@.len() as int) =~= with_slashes(path@));
    }
    out
}

/// Names the template in the file `file_path` under the directory `root`.
pub fn template_name(file_path: &str, root: &str) -> (r: Option<String>)
    ensures
        match r {
            Some(name) => template_name_of(file_path@, root@) == Some(name@),
            None => template_name_of(file_path@, root@) is None,
        },
{
    let path = normalize_path(file_path);
    let mut prefix = chars_of(root);
    prefix.push('/');
    proof {
        assert(prefix@ =~= root@ + seq!['/']);
    }
    if has_prefix(&path, &prefix) {
        let mut name = String::new();
        push_chars(&mut name, &path, prefix.len());
        proof {
            assert(Seq::<char>::empty() + path@.skip(prefix@.len() as int) =~= path@.skip(
                prefix@.len() as int,
            ));
        }
        Some(name)
    } else {
        None
    }
}

} // verus!

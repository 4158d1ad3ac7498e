//! File-system path handling: shortening a path for display, and naming
//! a site's output directory.
use vstd::prelude::*;

verus! {

/// The components that `std::path::Path` splits this path into, under the
/// separator rules of the target platform.
pub uninterp spec fn components_of(path: Seq<char>) -> Seq<Seq<char>>;

/// The text of the path that `std::path::PathBuf` builds by pushing these
/// components in turn onto an empty path.
pub uninterp spec fn joined_of(parts: Seq<Seq<char>>) -> Seq<char>;

/// The characters of each string.
pub open spec fn texts(v: Seq<String>) -> Seq<Seq<char>> {
    v.map_values(|s: String| s@)
}

/// The last `length` of `parts`; none when `length` is zero or larger
/// than the number of parts.
pub open spec fn last_parts(parts: Seq<Seq<char>>, length: nat) -> Option<Seq<Seq<char>>> {
    if length == 0 || length > parts.len() {
        None
    } else {
        Some(parts.subrange(parts.len() - length, parts.len() as int))
    }
}

/// `path` cut down to its last `length` components, as text.
pub open spec fn truncated_of(path: Seq<char>, length: nat) -> Option<Seq<char>> {
    match last_parts(components_of(path), length) {
        Some(parts) => Some(joined_of(parts)),
        None => None,
    }
}

/// Relies on `std::path::Path::components` to split a path into its
/// components. The path is UTF-8 text, so each component is too, and the
/// lossy conversion keeps it as it is.
#[verifier::external_body]
fn path_components(path: &str) -> (r: Vec<String>)
    ensures
        texts(r@) == components_of(path@),
{
    std::path::Path::new(path).components().map(|c| c.as_os_str().to_string_lossy().into_owned()).collect()
}

/// Relies on `PathBuf`'s `FromIterator`, which pushes each part in turn
/// onto an empty path. The parts are UTF-8 text, so the path is too, and
/// the lossy conversion keeps it as it is.
#[verifier::external_body]
fn join_components(parts: &Vec<String>) -> (r: String)
    ensures
        r@ == joined_of(texts(parts@)),
{
    parts.iter().collect::<std::path::PathBuf>().to_string_lossy().into_owned()
}

/// The last `length` of `components`, in their order; `None` when `length`
/// is zero or there are fewer components than that.
pub fn keep_last(components: &Vec<String>, length: usize) -> (r: Option<Vec<String>>)
    ensures
        match r {
            Some(v) => last_parts(texts(components@), length as nat) == Some(texts(v@)),
            None => last_parts(texts(components@), length as nat) is None,
        },
{
    let n = components.len();
    if length == 0 || length > n {
        return None;
    }
    let start = n - length;
    let mut kept: Vec<String> = Vec::new();
    let mut i = start;
    while i < n
        invariant
            n == components@.len(),
            start <= i <= n,
            texts(kept@) =~= texts(components@).subrange(start as int, i as int),
        decreases n - i,
    {
        let ghost before = kept@;
        kept.push(components[i].clone());
        assert(texts(kept@) =~= texts(before).push(components@[i as int]@));
        i = i + 1;
    }
    Some(kept)
}

/// Shortens `path` to its last `length` components, for display.
///
/// Gives `None` when `length` is zero, and when the path has fewer than
/// `length` components; a path with exactly `length` components comes back
/// whole.
pub fn truncate(path: &str, length: usize) -> (r: Option<String>)
    ensures
        match r {
            Some(t) => truncated_of(path@, length as nat) == Some(t@),
            None => truncated_of(path@, length as nat) is None,
        },
{
    if length == 0 {
        return None;
    }
    let components = path_components(path);
    match keep_last(&components, length) {
        Some(parts) => Some(join_components(&parts)),
        None => None,
    }
}

/// `site_name` with each space replaced by an underscore.
pub open spec fn underscored(site_name: Seq<char>) -> Seq<char> {
    site_name.map_values(|c: char| if c == ' ' { '_' } else { c })
}

/// Relies on `str::replace`, which replaces every match of the pattern, here
/// each space, with the given text, here one underscore.
#[verifier::external_body]
fn replace_spaces(s: &str) -> (r: String)
    ensures
        r@ == underscored(s@),
{
    s.replace(' ', "_")
}

/// The name of the directory that holds a site's output: the site's name
/// with each space replaced by an underscore.
pub fn site_directory_name(site_name: &str) -> (r: String)
    ensures
        r@ == underscored(site_name@),
{
    replace_spaces(site_name)
}

} // verus!

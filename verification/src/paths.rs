//! Where cached and saved data live: paths as `/`-separated text.
//!
//! These are Unix paths: the joining below is what `Path::join` does on Unix.
//! On Windows `Path::join` separates with `\` and also treats drive and `\`
//! prefixes as absolute; there the text built here differs from it (Windows
//! accepts `/` as a separator, so an ordinary cache path still names the same
//! file).

use vstd::prelude::*;

verus! {

/// `part` appended to the directory `base`, as `Path::join` does it on Unix: an
/// absolute `part` (one that starts with `/`) replaces `base`; otherwise a `/`
/// separates the two unless `base` is empty or already ends with one.
pub open spec fn path_join(base: Seq<char>, part: Seq<char>) -> Seq<char> {
    if part.len() > 0 && part[0] == '/' {
        part
    } else if base.len() == 0 || base.last() == '/' {
        base + part
    } else {
        base + seq!['/'] + part
    }
}

/// How a path component is appended: a component starting with `/` stands
/// alone; otherwise it follows the directory, after one `/` unless the
/// directory is empty or already ends with `/`; nothing else is added or lost.
pub proof fn lemma_path_join_parts(base: Seq<char>, part: Seq<char>)
    ensures
        part.len() > 0 && part[0] == '/' ==> path_join(base, part) == part,
        !(part.len() > 0 && part[0] == '/') && (base.len() == 0 || base[base.len() - 1] == '/')
            ==> path_join(base, part) == base + part,
        !(part.len() > 0 && part[0] == '/') && base.len() > 0 && base[base.len() - 1] != '/'
            ==> path_join(base, part) == base + seq!['/'] + part,
{
}

/// Appends the path component `part` to the directory `base`.
pub fn join_path(base: &str, part: &str) -> (r: String)
    ensures
        r@ == path_join(base@, part@),
{
    let part_len = part.unicode_len();
    if part_len > 0 && part.get_char(0) == '/' {
        return String::from_str(part);
    }
    let base_len = base.unicode_len();
    let mut r = String::from_str(base);
    if base_len > 0 && base.get_char(base_len - 1) != '/' {
        crate::text::push_char(&mut r, '/');
    }
    r.append(part);
    r
}

/// The file that caches the entry `key` of the kind `category` under the cache directory `root`.
pub fn cache_file_path(root: &str, category: &str, key: &str) -> (r: String)
    ensures
        r@ == path_join(path_join(root@, category@), key@ + ".json"@),
{
    let dir = join_path(root, category);
    let mut file = String::from_str(key);
    file.append(".json");
    join_path(dir.as_str(), file.as_str())
}

/// The file `file_name` under the data directory `root`.
pub fn data_file_path(root: &str, file_name: &str) -> (r: String)
    ensures
        r@ == path_join(root@, file_name@),
{
    join_path(root, file_name)
}

} // verus!

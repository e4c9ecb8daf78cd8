//! Where the helper programs (the engine and the bibliography tool) are
//! looked for: beside the running executable, in a `deps` directory beside
//! it, in a `deps` directory at the project root, and last wherever the
//! system's search path finds the bare file name. The first place where the
//! file exists wins; when none has it, the bare name is used and a failure
//! to start the program reports the rest.
use crate::text::string_of;
use vstd::prelude::*;
use vstd::string::StringExecFns;

verus! {

/// `dir`, the separator, then `name`.
pub open spec fn join_path(dir: Seq<char>, separator: char, name: Seq<char>) -> Seq<char> {
    dir + seq![separator] + name
}

/// The places looked at for the program file `file`, in order, given the
/// executable's directory and, when it has one, the project root.
pub open spec fn tool_candidates_spec(
    exe_dir: Seq<char>,
    project_root: Option<Seq<char>>,
    file: Seq<char>,
    separator: char,
) -> Seq<Seq<char>> {
    let near = seq![
        join_path(exe_dir, separator, file),
        join_path(join_path(exe_dir, separator, "deps"@), separator, file),
    ];
    match project_root {
        Some(root) => near.push(join_path(join_path(root, separator, "deps"@), separator, file)),
        None => near,
    }
}

/// The first candidate, from position `i` on, that exists (`exists[k]` says
/// whether candidate `k` does; a missing entry counts as not existing).
pub open spec fn first_existing(candidates: Seq<Seq<char>>, exists: Seq<bool>, i: int) -> Option<
    Seq<char>,
>
    decreases candidates.len() - i,
{
    if i < 0 || i >= candidates.len() {
        None
    } else if i < exists.len() && exists[i] {
        Some(candidates[i])
    } else {
        first_existing(candidates, exists, i + 1)
    }
}

/// The paths held by a list of strings.
pub open spec fn string_views(s: Seq<String>) -> Seq<Seq<char>> {
    s.map_values(|p: String| p@)
}

fn join(dir: &str, separator: char, name: &str) -> (r: String)
    ensures
        r@ == join_path(dir@, separator, name@),
{
    let sep = string_of(&vec![separator]);
    let mut r = dir.to_owned();
    r.append(sep.as_str());
    r.append(name);
    r
}

/// The places to look for the program file `file`, in order.
pub fn tool_candidates(exe_dir: &str, project_root: Option<&str>, file: &str, separator: char) -> (r:
    Vec<String>)
    ensures
        string_views(r@) == tool_candidates_spec(
            exe_dir@,
            match project_root {
                Some(p) => Some(p@),
                None => None,
            },
            file@,
            separator,
        ),
{
    let beside = join(exe_dir, separator, file);
    let deps = join(exe_dir, separator, "deps");
    let in_deps = join(deps.as_str(), separator, file);
    let mut r = vec![beside, in_deps];
    match project_root {
        Some(root) => {
            let root_deps = join(root, separator, "deps");
            let at_root = join(root_deps.as_str(), separator, file);
            r.push(at_root);
        },
        None => {
        },
    }
    assert(string_views(r@) =~= tool_candidates_spec(
        exe_dir@,
        match project_root {
            Some(p) => Some(p@),
            None => None,
        },
        file@,
        separator,
    ));
    r
}

/// The program to run: the first candidate that exists, else the bare file
/// name.
pub fn choose_tool(candidates: &Vec<String>, exists: &Vec<bool>, file: &str) -> (r: String)
    ensures
        r@ == match first_existing(string_views(candidates@), exists@, 0) {
            Some(p) => p,
            None => file@,
        },
{
    let mut i: usize = 0;
    while i < candidates.len()
        invariant
            i <= candidates@.len(),
            first_existing(string_views(candidates@), exists@, 0) == first_existing(
                string_views(candidates@),
                exists@,
                i as int,
            ),
        decreases candidates@.len() - i,
    {
        if i < exists.len() && exists[i] {
            return candidates[i].clone();
        }
        i = i + 1;
    }
    file.to_owned()
}

} // verus!

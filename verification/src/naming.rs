//! Workspace names, the file names that back them, and the paths those files
//! live at. A workspace named `n` is backed by the file `n.db` inside the
//! trees directory; only files carrying that suffix count as workspaces.

use vstd::prelude::*;
use vstd::string::StrSliceExecFns;
use vstd::string::StringExecFns;

verus! {

/// The fixed suffix every workspace file carries: ".db".
pub open spec fn suffix() -> Seq<char> {
    seq!['.', 'd', 'b']
}

/// A caller-supplied workspace name is acceptable when it is non-empty and
/// holds no path separator, so the file it names cannot escape the trees
/// directory.
pub open spec fn valid_name(n: Seq<char>) -> bool {
    &&& n.len() > 0
    &&& forall|i: int| 0 <= i < n.len() ==> n[i] != '/' && n[i] != '\\'
}

/// The file name backing a workspace: the name with the suffix appended.
pub open spec fn file_name_of(n: Seq<char>) -> Seq<char> {
    n + suffix()
}

/// The full path of a directory entry inside the trees directory.
pub open spec fn path_in_dir(dir: Seq<char>, file_name: Seq<char>) -> Seq<char> {
    dir + seq!['/'] + file_name
}

/// A directory entry names a workspace file when it ends in the suffix and
/// its stem (the part before the suffix) is non-empty.
pub open spec fn is_workspace_file(f: Seq<char>) -> bool {
    &&& f.len() > suffix().len()
    &&& f.subrange(f.len() - suffix().len(), f.len() as int) == suffix()
}

/// The workspace name a workspace file encodes: everything before the suffix.
pub open spec fn stem_of(f: Seq<char>) -> Seq<char> {
    f.take(f.len() - suffix().len())
}

/// Appending the suffix to a non-empty name yields a workspace file whose
/// stem is that name again.
pub proof fn lemma_file_name_of_stem(n: Seq<char>)
    requires
        n.len() > 0,
    ensures
        is_workspace_file(file_name_of(n)),
        stem_of(file_name_of(n)) == n,
{
    let f = file_name_of(n);
    assert(f.subrange(f.len() - suffix().len(), f.len() as int) =~= suffix());
    assert(stem_of(f) =~= n);
}

/// A workspace file is exactly its stem with the suffix appended, so file
/// names and workspace names correspond one to one.
pub proof fn lemma_stem_file_name(f: Seq<char>)
    requires
        is_workspace_file(f),
    ensures
        file_name_of(stem_of(f)) == f,
        stem_of(f).len() > 0,
{
    assert(file_name_of(stem_of(f)) =~= f);
}

/// The suffix adds no separator: a valid name yields a valid file name.
pub proof fn lemma_file_name_valid(n: Seq<char>)
    requires
        valid_name(n),
    ensures
        valid_name(file_name_of(n)),
{
    let f = file_name_of(n);
    assert forall|i: int| 0 <= i < f.len() implies f[i] != '/' && f[i] != '\\' by {
        if i < n.len() {
            assert(f[i] == n[i]);
        } else {
            assert(f[i] == suffix()[i - n.len()]);
        }
    }
}

/// Decides whether a caller-supplied workspace name is acceptable.
pub fn check_name(name: &str) -> (r: bool)
    ensures
        r == valid_name(name@),
{
    let n = name.unicode_len();
    if n == 0 {
        return false;
    }
    let mut i: usize = 0;
    while i < n
        invariant
            i <= n,
            n == name@.len(),
            forall|j: int| 0 <= j < i ==> name@[j] != '/' && name@[j] != '\\',
        decreases n - i,
    {
        let c = name.get_char(i);
        if c == '/' || c == '\\' {
            return false;
        }
        i = i + 1;
    }
    true
}

/// The file name backing the workspace `name`: the name with ".db" appended.
pub fn workspace_file_name(name: &str) -> (r: String)
    ensures
        r@ == file_name_of(name@),
{
    let mut s = String::from_str(name);
    s.append(".db");
    proof {
        reveal_strlit(".db");
        assert(".db"@ =~= suffix());
    }
    s
}

/// The full path of the directory entry `file_name` inside `trees_dir`.
pub fn entry_path(trees_dir: &str, file_name: &str) -> (r: String)
    ensures
        r@ == path_in_dir(trees_dir@, file_name@),
{
    let mut s = String::from_str(trees_dir);
    s.append("/");
    s.append(file_name);
    proof {
        reveal_strlit("/");
        assert("/"@ =~= seq!['/']);
        assert(s@ =~= path_in_dir(trees_dir@, file_name@));
    }
    s
}

/// Recognises a workspace file: returns its stem when `file_name` carries the
/// workspace suffix, and nothing otherwise.
pub fn parse_workspace_file(file_name: &str) -> (r: Option<String>)
    ensures
        r is Some <==> is_workspace_file(file_name@),
        r matches Some(stem) ==> stem@ == stem_of(file_name@),
{
    let n = file_name.unicode_len();
    if n <= 3 {
        proof {
            assert(suffix().len() == 3);
        }
        return None;
    }
    let c0 = file_name.get_char(n - 3);
    let c1 = file_name.get_char(n - 2);
    let c2 = file_name.get_char(n - 1);
    if c0 == '.' && c1 == 'd' && c2 == 'b' {
        let stem = file_name.substring_char(0, n - 3);
        proof {
            let f = file_name@;
            assert(f.subrange(f.len() - suffix().len(), f.len() as int) =~= suffix());
        }
        Some(String::from_str(stem))
    } else {
        proof {
            let f = file_name@;
            if is_workspace_file(f) {
                assert(f.subrange(f.len() - 3, f.len() as int)[0] == f[f.len() - 3]);
                assert(f.subrange(f.len() - 3, f.len() as int)[1] == f[f.len() - 2]);
                assert(f.subrange(f.len() - 3, f.len() as int)[2] == f[f.len() - 1]);
                assert(suffix()[0] == '.' && suffix()[1] == 'd' && suffix()[2] == 'b');
            }
        }
        None
    }
}

} // verus!

//! The name under which a file is announced and stored: the last component of a path.
//!
//! What that is depends on the platform. Where slashes alone part a path, it is found here. Where
//! there are drives and other separators, the platform is asked, and its answer is taken from there.

use vstd::prelude::*;
use vstd::slice::slice_subrange;
use vstd::string::*;

use crate::text::{chars_of, same_text, text_of};

verus! {

/// How the last component of a path is found.
#[derive(Debug, Clone)]
pub enum PathCut {
    /// Slashes alone part the path.
    Slashes,
    /// The platform parts the path in its own way; this is the last component that it finds.
    Platform(Option<String>),
}

/// Where the last component of a path starts: behind its last slash.
pub open spec fn component_start(path: Seq<char>) -> int
    decreases path.len(),
{
    if path.len() == 0 {
        0
    } else if path.last() == '/' {
        path.len() as int
    } else {
        component_start(path.drop_last())
    }
}

pub proof fn lemma_component_start(path: Seq<char>)
    ensures
        0 <= component_start(path) <= path.len(),
        component_start(path) > 0 ==> path[component_start(path) - 1] == '/',
        forall|i: int| component_start(path) <= i < path.len() ==> path[i] != '/',
    decreases path.len(),
{
    if path.len() > 0 && path.last() != '/' {
        let front = path.drop_last();
        lemma_component_start(front);
        assert forall|i: int| component_start(path) <= i < path.len() implies path[i] != '/' by {
            if i < front.len() {
                assert(front[i] == path[i]);
            }
        }
    }
}

/// The last component of a path that slashes part, leaving out empty components and those that name
/// the directory they stand in. A path has none if nothing is left, or if it ends in the parent of a
/// directory.
pub open spec fn file_name(path: Seq<char>) -> Option<Seq<char>>
    decreases path.len(),
{
    let start = component_start(path);
    let component = path.skip(start);
    if component.len() == 0 || component == seq!['.'] {
        if start == 0 {
            None
        } else {
            proof {
                lemma_component_start(path);
            }
            file_name(path.take(start - 1))
        }
    } else if component == seq!['.', '.'] {
        None
    } else {
        Some(component)
    }
}

/// The last component of a path that slashes part.
pub fn last_component(path: &str) -> (name: Option<String>)
    ensures
        match name {
            Some(n) => file_name(path@) == Some(n@),
            None => file_name(path@) is None,
        },
{
    let chars = chars_of(path);
    let mut end: usize = chars.len();
    assert(chars@.take(end as int) == path@);
    loop
        invariant
            end <= chars@.len(),
            chars@ == path@,
            file_name(path@) == file_name(chars@.take(end as int)),
        decreases end,
    {
        let ghost part = chars@.take(end as int);
        let mut start: usize = end;
        assert(part.take(start as int) == part);
        while start > 0 && chars[start - 1] != '/'
            invariant
                start <= end <= chars@.len(),
                part == chars@.take(end as int),
                component_start(part) == component_start(part.take(start as int)),
            ensures
                start <= end,
                component_start(part) == start,
            decreases start,
        {
            assert(part.take(start as int).drop_last() == part.take(start - 1));
            assert(part.take(start as int).last() == chars@[start - 1]);
            start = start - 1;
        }
        let component = slice_subrange(chars.as_slice(), start, end);
        assert(component@ == part.skip(start as int));
        let here: bool = component.len() == 1 && component[0] == '.';
        proof {
            let dot = seq!['.'];
            assert(dot.len() == 1 && dot[0] == '.');
            if here {
                assert(component@ =~= dot);
            }
        }
        if component.len() == 0 || here {
            if start == 0 {
                return None;
            }
            assert(part.take(start - 1) == chars@.take(start - 1));
            end = start - 1;
        } else {
            let parent: bool = component.len() == 2 && component[0] == '.' && component[1] == '.';
            proof {
                let dots = seq!['.', '.'];
                assert(dots.len() == 2 && dots[0] == '.' && dots[1] == '.');
                if parent {
                    assert(component@ =~= dots);
                }
            }
            if parent {
                return None;
            }
            return Some(text_of(component));
        }
    }
}

/// The last component of a path.
pub open spec fn component_of(path: Seq<char>, cut: PathCut) -> Option<Seq<char>> {
    match cut {
        PathCut::Slashes => file_name(path),
        PathCut::Platform(Some(name)) => Some(name@),
        PathCut::Platform(None) => None,
    }
}

fn find_component(path: &str, cut: &PathCut) -> (name: Option<String>)
    ensures
        match name {
            Some(n) => component_of(path@, *cut) == Some(n@),
            None => component_of(path@, *cut) is None,
        },
{
    match cut {
        PathCut::Slashes => last_component(path),
        PathCut::Platform(Some(name)) => Some(name.as_str().to_string()),
        PathCut::Platform(None) => None,
    }
}

/// The name under which the sender announces a file.
pub fn announced_name(path: &str, cut: &PathCut) -> (name: String)
    ensures
        name@ == match component_of(path@, *cut) {
            Some(n) => n,
            None => "unknown"@,
        },
{
    match find_component(path, cut) {
        Some(name) => name,
        None => "unknown".to_string(),
    }
}

/// Whether a file can be stored under a name: not under an empty one, nor under one that stands for
/// a directory or its parent.
pub open spec fn usable_name(name: Seq<char>) -> bool {
    name.len() > 0 && name != "."@ && name != ".."@
}

/// The name under which a received file is stored, if there is a usable one.
pub open spec fn stored_as(path: Seq<char>, cut: PathCut) -> Option<Seq<char>> {
    match component_of(path, cut) {
        Some(name) => if usable_name(name) {
            Some(name)
        } else {
            None
        },
        None => None,
    }
}

/// The name under which a received file is stored.
pub fn stored_name(path: &str, cut: &PathCut) -> (name: Option<String>)
    ensures
        match name {
            Some(n) => stored_as(path@, *cut) == Some(n@),
            None => stored_as(path@, *cut) is None,
        },
{
    proof {
        reveal_strlit("");
    }
    match find_component(path, cut) {
        Some(name) => {
            let text = name.as_str();
            if same_text(text, "") || same_text(text, ".") || same_text(text, "..") {
                assert(text@.len() == 0 ==> text@ =~= ""@);
                None
            } else {
                assert(text@.len() == 0 ==> text@ =~= ""@);
                Some(name)
            }
        },
        None => None,
    }
}

/// A received name stays within the directory it is stored in: it is not empty, it names neither the
/// directory itself nor its parent, and where slashes part a path it has none. There every last
/// component can be used.
pub proof fn law_stored_name_is_local(path: Seq<char>, cut: PathCut)
    ensures
        stored_as(path, cut) matches Some(name) ==> {
            &&& usable_name(name)
            &&& cut is Slashes ==> !name.contains('/')
        },
        cut is Slashes ==> stored_as(path, cut) == file_name(path),
{
    reveal_strlit(".");
    reveal_strlit("..");
    assert("."@ =~= seq!['.']);
    assert(".."@ =~= seq!['.', '.']);
    lemma_file_name(path);
}

/// A name without a slash that is not empty and stands for no directory is its own last component,
/// whole as it is, and it is that of every path in which it stands behind a slash. Under it the file
/// is stored.
pub proof fn law_name_is_kept_whole(dir: Seq<char>, name: Seq<char>)
    requires
        name.len() > 0,
        !name.contains('/'),
        name != "."@,
        name != ".."@,
    ensures
        file_name(name) == Some(name),
        file_name(dir + "/"@ + name) == Some(name),
        component_of(name, PathCut::Slashes) == Some(name),
        component_of(dir + "/"@ + name, PathCut::Slashes) == Some(name),
        stored_as(name, PathCut::Slashes) == Some(name),
        stored_as(dir + "/"@ + name, PathCut::Slashes) == Some(name),
{
    reveal_strlit("/");
    reveal_strlit(".");
    reveal_strlit("..");
    assert("."@ =~= seq!['.']);
    assert(".."@ =~= seq!['.', '.']);
    let path = dir + "/"@ + name;
    lemma_component_start(name);
    lemma_component_start(path);
    assert(component_start(name) == 0) by {
        if component_start(name) > 0 {
            assert(name.contains(name[component_start(name) - 1]));
        }
    }
    assert(name.skip(0) =~= name);
    let at = dir.len() as int;
    assert(path[at] == '/');
    let start = component_start(path);
    assert(start == at + 1) by {
        if start > at + 1 {
            assert(path[start - 1] == name[start - 1 - at - 1]);
            assert(name.contains(name[start - 1 - at - 1]));
        }
    }
    assert(path.skip(start) =~= name);
}

/// Slashes at the end of a path, and a directory that names itself there, change nothing. A path that
/// ends in the parent of a directory has no last component, and neither has an empty one.
pub proof fn law_directory_is_named_without_slash(path: Seq<char>)
    ensures
        file_name(path + "/"@) == file_name(path),
        file_name(path + "/."@) == file_name(path),
        file_name(path + "/.."@) is None,
        file_name(""@) is None,
        file_name("."@) is None,
        file_name(".."@) is None,
{
    reveal_strlit("");
    reveal_strlit(".");
    reveal_strlit("..");
    reveal_strlit("/");
    reveal_strlit("/.");
    reveal_strlit("/..");
    let (a, b, c) = (path + "/"@, path + "/."@, path + "/.."@);
    let at = path.len() as int;
    reveal_with_fuel(component_start, 4);
    assert(a.last() == '/');
    assert(b.last() == '.' && b.drop_last() =~= a);
    assert(c.last() == '.' && c.drop_last() =~= b);
    assert(a.take(at) =~= path && b.take(at) =~= path);
    assert(a.skip(at + 1).len() == 0);
    assert(b.skip(at + 1) =~= seq!['.']);
    assert(c.skip(at + 1) =~= seq!['.', '.']);
    assert(seq!['.'].len() == 1 && seq!['.', '.'].len() == 2);
    let (e, d, p) = (""@, "."@, ".."@);
    assert(d.drop_last() =~= e && p.drop_last() =~= d);
    assert(d.last() == '.' && p.last() == '.');
    assert(d.skip(0) =~= seq!['.'] && p.skip(0) =~= seq!['.', '.']);
}

/// What a platform finds in its own way is the last component, and the file is stored under it if it
/// can be.
pub proof fn law_platform_is_believed(path: Seq<char>, name: String)
    ensures
        component_of(path, PathCut::Platform(Some(name))) == Some(name@),
        component_of(path, PathCut::Platform(None)) is None,
        name@.len() > 0 && name@ != "."@ && name@ != ".."@ ==> stored_as(
            path,
            PathCut::Platform(Some(name)),
        ) == Some(name@),
        name@.len() == 0 || name@ == "."@ || name@ == ".."@ ==> stored_as(
            path,
            PathCut::Platform(Some(name)),
        ) is None,
        stored_as(path, PathCut::Platform(None)) is None,
{
}

proof fn lemma_file_name(path: Seq<char>)
    ensures
        file_name(path) matches Some(name) ==> {
            &&& name.len() > 0
            &&& !name.contains('/')
            &&& name != seq!['.']
            &&& name != seq!['.', '.']
        },
    decreases path.len(),
{
    let start = component_start(path);
    lemma_component_start(path);
    let component = path.skip(start);
    if component.len() == 0 || component == seq!['.'] {
        if start > 0 {
            lemma_file_name(path.take(start - 1));
        }
    }
}

} // verus!

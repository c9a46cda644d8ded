//! Which script files are run.

use crate::sorted::SortedSet;
use crate::text::{
    chars_of, find_last, joined, joined3, last_position, last_position_is_last, occurs, same_text,
    string_of, text_has_part, texts,
};
use vstd::prelude::*;
use vstd::string::*;

verus! {

/// The extension of a file name: what follows its last dot, unless that dot is
/// its first character or there is none.
pub open spec fn extension_in(file_name: Seq<char>) -> Option<Seq<char>> {
    let dot = last_position(file_name, '.');
    if dot <= 0 || file_name == ".."@ {
        None
    } else {
        Some(file_name.skip(dot + 1))
    }
}

/// The extension of a file name.
pub fn extension_of(file_name: &str) -> (extension: Option<String>)
    ensures
        match extension {
            Some(e) => extension_in(file_name@) == Some(e@),
            None => extension_in(file_name@) is None,
        },
{
    let chars = chars_of(file_name);
    proof {
        last_position_is_last(file_name@, '.');
    }
    if same_text(file_name, "..") {
        return None;
    }
    match find_last(&chars, '.') {
        Some(dot) => {
            if dot == 0 {
                return None;
            }
            let n: usize = chars.len();
            let extension = string_of(&chars, dot + 1, n);
            proof {
                assert(extension@ =~= file_name@.skip(dot + 1));
            }
            Some(extension)
        },
        None => None,
    }
}

/// A script is a local file: its path must not be a URL.
pub fn check_local(path: &str) -> (checked: Result<(), String>)
    ensures
        checked is Err == occurs(path@, "://"@),
        checked matches Err(message) ==> message@
            == "Only local filesystem Lua files are supported"@,
{
    if text_has_part(path, "://") {
        Err("Only local filesystem Lua files are supported".to_owned())
    } else {
        Ok(())
    }
}

/// Whether a path, by its components, lies at or below a root.
pub open spec fn lies_below(path: Seq<Seq<char>>, root: Seq<Seq<char>>) -> bool {
    root.is_prefix_of(path)
}

/// Whether a path, by its components, lies at or below a root.
pub fn is_below(path: &Vec<String>, root: &Vec<String>) -> (yes: bool)
    ensures
        yes == lies_below(texts(path@), texts(root@)),
{
    let ghost p = texts(path@);
    let ghost r = texts(root@);
    if root.len() > path.len() {
        return false;
    }
    let mut i: usize = 0;
    while i < root.len()
        invariant
            p == texts(path@),
            r == texts(root@),
            i <= root@.len() <= path@.len(),
            forall|j: int| 0 <= j < i ==> r[j] == p[j],
        decreases root@.len() - i,
    {
        proof {
            assert(r[i as int] == root@[i as int]@);
            assert(p[i as int] == path@[i as int]@);
        }
        if !same_text(root[i].as_str(), path[i].as_str()) {
            proof {
                assert(p.subrange(0, r.len() as int)[i as int] == p[i as int]);
            }
            return false;
        }
        i += 1;
    }
    proof {
        assert(r =~= p.subrange(0, r.len() as int));
    }
    true
}

/// Whether a script may be run: it lies below the root, and its name ends in `.lua`.
///
/// `path` and `root` are the components of the resolved paths, `shown` and
/// `shown_root` how they are written in messages.
pub fn check_script(
    path: &Vec<String>,
    root: &Vec<String>,
    file_name: &str,
    shown: &str,
    shown_root: &str,
) -> (checked: Result<(), String>)
    ensures
        match checked {
            Ok(_) => lies_below(texts(path@), texts(root@)) && extension_in(file_name@) == Some(
                "lua"@,
            ),
            Err(message) => if !lies_below(texts(path@), texts(root@)) {
                message@ == "Lua file "@ + shown@ + " is outside of allowed root "@ + shown_root@
            } else {
                extension_in(file_name@) != Some("lua"@) && message@
                    == "Lua file must end in .lua: "@ + shown@
            },
        },
{
    if !is_below(path, root) {
        let mut message = joined3("Lua file ", shown, " is outside of allowed root ");
        message.append(shown_root);
        return Err(message);
    }
    if let Some(extension) = extension_of(file_name) {
        if same_text(extension.as_str(), "lua") {
            return Ok(());
        }
    }
    Err(joined("Lua file must end in .lua: ", shown))
}

/// The script files that have been run.
pub struct LoadedFiles {
    files: SortedSet,
}

impl View for LoadedFiles {
    type V = Set<Seq<char>>;

    closed spec fn view(&self) -> Set<Seq<char>> {
        self.files@
    }
}

impl LoadedFiles {
    /// No file has been run.
    pub fn new() -> (files: Self)
        ensures
            files@ == Set::<Seq<char>>::empty(),
    {
        LoadedFiles { files: SortedSet::new() }
    }

    /// Notes a file as run. Returns whether it is to be run: each file is run once.
    pub fn claim(&mut self, file: String) -> (run: bool)
        ensures
            run == !old(self)@.contains(file@),
            final(self)@ == old(self)@.insert(file@),
    {
        self.files.insert(file)
    }
}

} // verus!

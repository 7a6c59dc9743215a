//! The argument bundles of the user-facing commands. Each type carries what
//! one command needs; executing a command reads and prints through the
//! terminal and so lives outside the verified core, handing these values to
//! the library operations.

use vstd::prelude::*;

use crate::comps_appearance::{spec_split_chars, split_string};
use crate::storage::DEFAULT_WORKING_DIR;
use crate::id::ID;
use crate::progress::Progress;
use crate::progress_update::ProgressUpdate;

verus! {

/// Attach a description to an identifier.
#[derive(Debug)]
pub struct AddDescriptionPCMD {
    pub id: ID,
    pub description: String,
}

impl AddDescriptionPCMD {
    pub fn new(id: ID, description: String) -> (r: Self)
        ensures
            r == (AddDescriptionPCMD { id, description }),
    {
        AddDescriptionPCMD { id, description }
    }
}

/// Attach an identity record (read from elsewhere) to an identifier.
#[derive(Debug, Clone, Copy, PartialEq, Eq, Structural)]
pub struct AddEntitybasePCMD {
    pub id: ID,
}

impl AddEntitybasePCMD {
    pub fn new(id: ID) -> (r: Self)
        ensures
            r == (AddEntitybasePCMD { id }),
    {
        AddEntitybasePCMD { id }
    }
}

/// Track a new entity; absent attributes are asked for interactively.
#[derive(Debug)]
pub struct AddLibentityPCMD {
    pub path: Vec<u8>,
    pub name: Option<String>,
    pub tags: Option<String>,
    pub prog_ceil: Option<usize>,
}

impl AddLibentityPCMD {
    pub fn new(
        path: Vec<u8>,
        name: Option<String>,
        tags: Option<String>,
        prog_ceil: Option<usize>,
    ) -> (r: Self)
        ensures
            r == (AddLibentityPCMD { path, name, tags, prog_ceil }),
    {
        AddLibentityPCMD { path, name, tags, prog_ceil }
    }
}

/// Link a path to a fresh identifier, bypassing the invariant layer.
#[derive(Debug)]
pub struct AddPathPCMD {
    pub path: Vec<u8>,
}

impl AddPathPCMD {
    pub fn new(path: Vec<u8>) -> (r: Self)
        ensures
            r == (AddPathPCMD { path }),
    {
        AddPathPCMD { path }
    }
}

/// Attach a progress record to an identifier.
#[derive(Debug, Clone, Copy)]
pub struct AddProgressPCMD {
    pub id: ID,
    pub progress: Progress,
}

impl AddProgressPCMD {
    pub fn new(id: ID, progress: Progress) -> (r: Self)
        ensures
            r == (AddProgressPCMD { id, progress }),
    {
        AddProgressPCMD { id, progress }
    }
}

/// Extend an identifier's tag list.
#[derive(Debug)]
pub struct AddTagsPCMD {
    pub id: ID,
    pub stried_tags: String,
}

impl AddTagsPCMD {
    pub fn new(id: ID, stried_tags: String) -> (r: Self)
        ensures
            r == (AddTagsPCMD { id, stried_tags }),
    {
        AddTagsPCMD { id, stried_tags }
    }
}

/// Apply a progress update to an identifier's progress record.
#[derive(Debug, Clone, Copy)]
pub struct ChangeProgressPCMD {
    pub id: ID,
    pub progress_update: ProgressUpdate,
}

impl ChangeProgressPCMD {
    pub fn new(id: ID, progress_update: ProgressUpdate) -> (r: Self)
        ensures
            r == (ChangeProgressPCMD { id, progress_update }),
    {
        ChangeProgressPCMD { id, progress_update }
    }
}

/// Detach an identifier's description.
#[derive(Debug, Clone, Copy, PartialEq, Eq, Structural)]
pub struct DelDescriptionPCMD {
    pub id: ID,
}

impl DelDescriptionPCMD {
    pub fn new(id: ID) -> (r: Self)
        ensures
            r == (DelDescriptionPCMD { id }),
    {
        DelDescriptionPCMD { id }
    }
}

/// Detach an identifier's identity record, bypassing the invariant layer.
#[derive(Debug, Clone, Copy, PartialEq, Eq, Structural)]
pub struct DelEntitybasePCMD {
    pub id: ID,
}

impl DelEntitybasePCMD {
    pub fn new(id: ID) -> (r: Self)
        ensures
            r == (DelEntitybasePCMD { id }),
    {
        DelEntitybasePCMD { id }
    }
}

/// Untrack the entity under a path.
#[derive(Debug)]
pub struct DelLibentityPCMD {
    pub path: Vec<u8>,
}

impl DelLibentityPCMD {
    pub fn new(path: Vec<u8>) -> (r: Self)
        ensures
            r == (DelLibentityPCMD { path }),
    {
        DelLibentityPCMD { path }
    }
}

/// Unlink a path, bypassing the invariant layer.
#[derive(Debug)]
pub struct DelPathPCMD {
    pub path: Vec<u8>,
}

impl DelPathPCMD {
    pub fn new(path: Vec<u8>) -> (r: Self)
        ensures
            r == (DelPathPCMD { path }),
    {
        DelPathPCMD { path }
    }
}

/// Detach an identifier's progress record.
#[derive(Debug, Clone, Copy, PartialEq, Eq, Structural)]
pub struct DelProgressPCMD {
    pub id: ID,
}

impl DelProgressPCMD {
    pub fn new(id: ID) -> (r: Self)
        ensures
            r == (DelProgressPCMD { id }),
    {
        DelProgressPCMD { id }
    }
}

/// Drop tags from an identifier's tag list by position.
#[derive(Debug, Clone, Copy, PartialEq, Eq, Structural)]
pub struct DelTagsPCMD {
    pub id: ID,
}

impl DelTagsPCMD {
    pub fn new(id: ID) -> (r: Self)
        ensures
            r == (DelTagsPCMD { id }),
    {
        DelTagsPCMD { id }
    }
}

/// Show an identifier's identity record.
#[derive(Debug, Clone, Copy, PartialEq, Eq, Structural)]
pub struct GetEntitybasePCMD {
    pub id: ID,
}

impl GetEntitybasePCMD {
    pub fn new(id: ID) -> (r: Self)
        ensures
            r == (GetEntitybasePCMD { id }),
    {
        GetEntitybasePCMD { id }
    }
}

/// Show the identifier a path is tracked under.
#[derive(Debug)]
pub struct GetIDPCMD {
    pub path: Vec<u8>,
}

impl GetIDPCMD {
    pub fn new(path: Vec<u8>) -> (r: Self)
        ensures
            r == (GetIDPCMD { path }),
    {
        GetIDPCMD { path }
    }
}

/// Show an identifier's progress record.
#[derive(Debug, Clone, Copy, PartialEq, Eq, Structural)]
pub struct GetProgressPCMD {
    pub id: ID,
}

impl GetProgressPCMD {
    pub fn new(id: ID) -> (r: Self)
        ensures
            r == (GetProgressPCMD { id }),
    {
        GetProgressPCMD { id }
    }
}

/// How wide the listing should render.
#[derive(Debug, Clone, Copy, Hash, PartialEq, Eq, Structural)]
pub enum ListMode {
    Wide,
    Narrow,
}

impl ListMode {
    pub fn wide(is_wide: bool) -> (r: Self)
        ensures
            r == if is_wide {
                ListMode::Wide
            } else {
                ListMode::Narrow
            },
    {
        if is_wide {
            ListMode::Wide
        } else {
            ListMode::Narrow
        }
    }
}

/// List every tracked entity.
#[derive(Debug, Clone, Copy, PartialEq, Eq, Structural)]
pub struct ListPCMD {
    pub mode: ListMode,
}

impl ListPCMD {
    pub fn new(mode: ListMode) -> (r: Self)
        ensures
            r == (ListPCMD { mode }),
    {
        ListPCMD { mode }
    }
}

/// Render one entity's cover.
#[derive(Debug)]
pub struct LookPCMD {
    pub path: Vec<u8>,
}

impl LookPCMD {
    pub fn new(path: Vec<u8>) -> (r: Self)
        ensures
            r == (LookPCMD { path }),
    {
        LookPCMD { path }
    }
}

/// Open one entity with the configured viewer.
#[derive(Debug)]
pub struct OpenPCMD {
    pub path: Vec<u8>,
    pub just_look: bool,
}

impl OpenPCMD {
    pub fn new(path: Vec<u8>, just_look: bool) -> (r: Self)
        ensures
            r == (OpenPCMD { path, just_look }),
    {
        OpenPCMD { path, just_look }
    }
}

/// A name is hidden when it starts with a dot but is not one of the two
/// relative directory names.
pub open spec fn spec_is_hidden(name: Seq<char>) -> bool {
    name != "."@ && name != ".."@ && name.len() > 0 && name[0] == '.'
}

/// Whether `name` starts with a dot without being `.` or `..` itself.
pub fn is_hidden(name: &str) -> (r: bool)
    ensures
        r == spec_is_hidden(name@),
{
    proof {
        reveal_strlit(".");
        reveal_strlit("..");
    }
    let n = s_len(name);
    if n == 0 {
        return false;
    }
    if name.get_char(0) != '.' {
        return false;
    }
    if n == 1 {
        proof {
            assert(name@ =~= "."@);
        }
        return false;
    }
    if n == 2 && name.get_char(1) == '.' {
        proof {
            assert(name@ =~= ".."@);
        }
        return false;
    }
    proof {
        assert(name@ != "."@ && name@ != ".."@);
    }
    true
}

fn s_len(s: &str) -> (r: usize)
    ensures
        r == s@.len(),
{
    s.unicode_len()
}

/// Character-for-character string equality.
pub fn str_eq(a: &str, b: &str) -> (r: bool)
    ensures
        r == (a@ == b@),
{
    let n = s_len(a);
    if n != s_len(b) {
        proof {
            assert(a@ != b@);
        }
        return false;
    }
    let mut i: usize = 0;
    while i < n
        invariant
            0 <= i <= n,
            n == a@.len(),
            n == b@.len(),
            forall|j: int| 0 <= j < i ==> a@[j] == b@[j],
        decreases n - i,
    {
        if a.get_char(i) != b.get_char(i) {
            return false;
        }
        i = i + 1;
    }
    proof {
        assert(a@ =~= b@);
    }
    true
}

/// Whether `path` is exactly the current directory, `.`.
pub fn is_current_directory(path: &str) -> (r: bool)
    ensures
        r == (path@ == "."@),
{
    proof {
        reveal_strlit(".");
    }
    if s_len(path) == 1 && path.get_char(0) == '.' {
        proof {
            assert(path@ =~= "."@);
        }
        true
    } else {
        false
    }
}

/// `needle` appears somewhere inside `haystack`.
pub open spec fn spec_contains_seq(haystack: Seq<char>, needle: Seq<char>) -> bool {
    exists|i: int|
        0 <= i && i + needle.len() <= haystack.len() && #[trigger] haystack.subrange(
            i,
            i + needle.len(),
        ) == needle
}

/// Substring search, by checking every starting position.
pub fn str_contains(haystack: &str, needle: &str) -> (r: bool)
    ensures
        r == spec_contains_seq(haystack@, needle@),
{
    let h = s_len(haystack);
    let n = s_len(needle);
    if n > h {
        return false;
    }
    let mut i: usize = 0;
    while i <= h - n
        invariant
            0 <= i <= h - n + 1,
            n <= h,
            h == haystack@.len(),
            n == needle@.len(),
            forall|k: int|
                0 <= k < i ==> #[trigger] haystack@.subrange(k, k + needle@.len()) != needle@,
        decreases h - n - i + 1,
    {
        let mut j: usize = 0;
        let mut mismatch = false;
        while j < n && !mismatch
            invariant
                0 <= j <= n,
                i + n <= h,
                h == haystack@.len(),
                n == needle@.len(),
                forall|t: int| 0 <= t < j ==> haystack@[i + t] == needle@[t],
                mismatch ==> j < n && haystack@[i as int + j as int] != needle@[j as int],
            decreases n - j + (if mismatch {
                0int
            } else {
                1int
            }),
        {
            if haystack.get_char(i + j) == needle.get_char(j) {
                j = j + 1;
            } else {
                mismatch = true;
            }
        }
        if !mismatch {
            proof {
                assert(haystack@.subrange(i as int, i as int + needle@.len()) =~= needle@);
            }
            return true;
        }
        proof {
            assert(haystack@.subrange(i as int, i as int + needle@.len()) != needle@) by {
                assert(haystack@.subrange(i as int, i as int + needle@.len())[j as int]
                    == haystack@[i as int + j as int]);
            }
        }
        i = i + 1;
    }
    proof {
        assert forall|k: int|
            !(0 <= k && k + needle@.len() <= haystack@.len() && #[trigger] haystack@.subrange(
                k,
                k + needle@.len(),
            ) == needle@) by {
            if 0 <= k && k + needle@.len() <= haystack@.len() {
                assert(k < i);
            }
        }
    }
    false
}

/// Whether `name` mentions the working directory's name.
pub fn is_working_directory(name: &str) -> (r: bool)
    ensures
        r == spec_contains_seq(name@, DEFAULT_WORKING_DIR@),
{
    str_contains(name, DEFAULT_WORKING_DIR)
}

/// Report untracked files under the current directory.
#[derive(Debug)]
pub struct StatusPCMD {
    pub show_hidden: bool,
    pub ignore: Vec<String>,
}

impl StatusPCMD {
    /// The ignore list is given as one comma-separated string.
    pub fn new(show_hidden: bool, ignore_str: Option<String>) -> (r: Self)
        ensures
            r.show_hidden == show_hidden,
            r.ignore.deep_view() == (match ignore_str {
                Some(s) => spec_split_chars(s@, ','),
                None => spec_split_chars(Seq::<char>::empty(), ','),
            }),
    {
        let raw = match ignore_str {
            Some(s) => s,
            None => String::new(),
        };
        let ignore = split_string(raw.as_str(), ',');
        StatusPCMD { show_hidden, ignore }
    }

    pub fn hide_hidden(&self) -> (r: bool)
        ensures
            r == !self.show_hidden,
    {
        !self.show_hidden
    }

    /// Whether `name` is on the ignore list.
    pub fn ignore_list_contains(&self, name: &str) -> (r: bool)
        ensures
            r == (exists|k: int|
                0 <= k < self.ignore@.len() && (#[trigger] self.ignore@[k])@ == name@),
    {
        let mut k: usize = 0;
        while k < self.ignore.len()
            invariant
                0 <= k <= self.ignore@.len(),
                forall|t: int| 0 <= t < k ==> (#[trigger] self.ignore@[t])@ != name@,
            decreases self.ignore@.len() - k,
        {
            if str_eq(self.ignore[k].as_str(), name) {
                return true;
            }
            k = k + 1;
        }
        false
    }

    /// Whether a directory entry with this name should be visited at all:
    /// hidden names only when asked for, never the working directory, and
    /// never a name on the ignore list.
    pub fn check_entry(&self, name: &str) -> (r: bool)
        ensures
            r == if !self.show_hidden {
                !spec_is_hidden(name@) && !(exists|k: int|
                    0 <= k < self.ignore@.len() && (#[trigger] self.ignore@[k])@ == name@)
            } else {
                !spec_contains_seq(name@, DEFAULT_WORKING_DIR@) && !(exists|k: int|
                    0 <= k < self.ignore@.len() && (#[trigger] self.ignore@[k])@ == name@)
            },
    {
        if self.hide_hidden() {
            if is_hidden(name) {
                false
            } else {
                if self.ignore_list_contains(name) {
                    false
                } else {
                    true
                }
            }
        } else if is_working_directory(name) {
            false
        } else {
            if self.ignore_list_contains(name) {
                false
            } else {
                true
            }
        }
    }
}

} // verus!

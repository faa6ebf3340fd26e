//! Paths of temporary files, named at random beside the file they stand in
//! for.
use vstd::prelude::*;
use vstd::string::*;

verus! {

/// A lowercase hexadecimal digit.
pub open spec fn is_lower_hex(c: char) -> bool {
    ('0' <= c && c <= '9') || ('a' <= c && c <= 'f')
}

/// The text of a random (version 4) UUID in its hyphenated lowercase form,
/// such as `67e55044-10b1-426f-9247-bb680e5fe0c8`: 36 characters, hyphens
/// at 8, 13, 18 and 23, hexadecimal digits elsewhere, the version digit `4`
/// at 14 and one of `8`, `9`, `a`, `b` at 19.
pub open spec fn is_uuid_v4_text(s: Seq<char>) -> bool {
    &&& s.len() == 36
    &&& forall|i: int|
        0 <= i < 36 ==> if i == 8 || i == 13 || i == 18 || i == 23 {
            s[i] == '-'
        } else {
            is_lower_hex(#[trigger] s[i])
        }
    &&& s[14] == '4'
    &&& (s[19] == '8' || s[19] == '9' || s[19] == 'a' || s[19] == 'b')
}

/// A fresh random name: `uuid::Uuid::new_v4().to_string()`.
/// Trusted: the text has the shape of a hyphenated lowercase version 4 UUID
/// (uuid's `format_hyphenated`, with the version and variant bits that
/// `new_v4` sets); which one it is rests on chance. `new_v4` panics when the
/// system's random source fails, which no argument can rule out.
#[verifier::external_body]
fn genname() -> (s: String)
    ensures
        is_uuid_v4_text(s@),
{
    uuid::Uuid::new_v4().to_string()
}

/// `Path::join` on Unix for text paths: a name that starts with `/`
/// replaces the directory; otherwise the name is added after a `/`, which
/// is left out when the directory is empty or already ends with one.
pub open spec fn path_join(dir: Seq<char>, name: Seq<char>) -> Seq<char> {
    if name.len() > 0 && name[0] == '/' {
        name
    } else if dir.len() > 0 && dir.last() != '/' {
        dir + seq!['/'] + name
    } else {
        dir + name
    }
}

/// `name` joined onto `dir` as `Path::join` does it.
pub fn join_path(dir: &str, name: &str) -> (r: String)
    ensures
        r@ == path_join(dir@, name@),
        !(name@.len() > 0 && name@[0] == '/') && dir@.len() > 0 && dir@.last() != '/' ==> r@
            == dir@ + seq!['/'] + name@,
{
    let name_len = name.unicode_len();
    if name_len > 0 && name.get_char(0) == '/' {
        return String::from_str(name);
    }
    let dir_len = dir.unicode_len();
    let mut r = String::from_str(dir);
    if dir_len > 0 && dir.get_char(dir_len - 1) != '/' {
        proof {
            reveal_strlit("/");
        }
        r.append("/");
    }
    r.append(name);
    r
}

/// What `Path::parent` gives for the path text `p`: the path without its
/// last component, or `None` when it ends in a root or is empty.
pub uninterp spec fn path_parent(p: Seq<char>) -> Option<Seq<char>>;

/// The directory that holds `path`: `Path::new(path).parent()`, as text.
/// Trusted: the result is claimed to depend on the text alone, and is named
/// `path_parent` of it; which component it strips is not stated.
#[verifier::external_body]
fn parent_dir(path: &str) -> (r: Option<String>)
    ensures
        match r {
            Some(d) => path_parent(path@) == Some(d@),
            None => path_parent(path@) is None,
        },
{
    std::path::Path::new(path).parent().map(|d| d.to_string_lossy().into_owned())
}

/// A relative name joined onto a directory lies inside it, behind exactly
/// one separator: after a non-empty directory that does not end in `/`
/// comes one `/` and then the name; a directory ending in `/` is followed by
/// the name directly; an empty directory leaves the name alone. A name
/// that starts with `/` stands for itself.
pub proof fn law_join_separates(dir: Seq<char>, name: Seq<char>)
    ensures
        !(name.len() > 0 && name[0] == '/') && dir.len() > 0 && dir.last() != '/' ==> {
            &&& path_join(dir, name).len() == dir.len() + 1 + name.len()
            &&& path_join(dir, name).subrange(0, dir.len() as int) == dir
            &&& path_join(dir, name)[dir.len() as int] == '/'
            &&& path_join(dir, name).subrange(
                dir.len() as int + 1,
                path_join(dir, name).len() as int,
            ) == name
        },
        !(name.len() > 0 && name[0] == '/') && dir.len() > 0 && dir.last() == '/' ==> path_join(
            dir,
            name,
        ) == dir + name,
        !(name.len() > 0 && name[0] == '/') && dir.len() == 0 ==> path_join(dir, name) == name,
        name.len() > 0 && name[0] == '/' ==> path_join(dir, name) == name,
{
    let j = path_join(dir, name);
    if !(name.len() > 0 && name[0] == '/') && dir.len() > 0 && dir.last() != '/' {
        assert(j.subrange(0, dir.len() as int) =~= dir);
        assert(j.subrange(dir.len() as int + 1, j.len() as int) =~= name);
    }
    if dir.len() == 0 {
        assert(dir + name =~= name);
    }
}

/// The path of a temporary file. The program removes the file when the
/// value is dropped, unless it was released.
#[derive(Debug)]
pub struct TempFile {
    path: String,
}

impl View for TempFile {
    type V = Seq<char>;

    closed spec fn view(&self) -> Seq<char> {
        self.path@
    }
}

impl TempFile {
    /// A temporary file with a random name in `default_location`, the
    /// system's place for temporary files (which the program reads from
    /// the environment).
    pub fn new(default_location: &str) -> (t: TempFile)
        ensures
            exists|name: Seq<char>|
                is_uuid_v4_text(name) && t@ == path_join(default_location@, name),
    {
        Self::new_in(default_location)
    }

    /// A temporary file with a random name in `dir`.
    pub fn new_in(dir: &str) -> (t: TempFile)
        ensures
            exists|name: Seq<char>| is_uuid_v4_text(name) && t@ == path_join(dir@, name),
    {
        let name = genname();
        let t = Self::new_path(join_path(dir, name.as_str()));
        assert(is_uuid_v4_text(name@) && t@ == path_join(dir@, name@));
        t
    }

    /// A temporary file with a random name in the directory that holds
    /// `path`, or `None` when `path` has no parent (it ends in a root or is
    /// empty).
    pub fn beside(path: &str) -> (r: Option<TempFile>)
        ensures
            match r {
                Some(t) => path_parent(path@) is Some && exists|name: Seq<char>|
                    is_uuid_v4_text(name) && t@ == path_join(path_parent(path@)->0, name),
                None => path_parent(path@) is None,
            },
    {
        match parent_dir(path) {
            Some(dir) => Some(Self::new_in(dir.as_str())),
            None => None,
        }
    }

    /// A temporary file at exactly `path`.
    pub fn new_path(path: String) -> (t: TempFile)
        ensures
            t@ == path@,
    {
        TempFile { path }
    }

    /// The path of the file.
    pub fn path(&self) -> (r: &str)
        ensures
            r@ == self@,
    {
        self.path.as_str()
    }

    /// Gives up ownership of the path: the file is no longer removed.
    pub fn release(self) -> (r: String)
        ensures
            r@ == self@,
    {
        self.path
    }
}

/// A random name never starts with `/`, so a temporary file made in a
/// directory lies inside it: its path is the directory's, a separator
/// where one is needed, and the name.
pub proof fn law_temp_inside_dir(dir: Seq<char>, name: Seq<char>)
    requires
        is_uuid_v4_text(name),
    ensures
        path_join(dir, name).len() > dir.len(),
        path_join(dir, name).subrange(0, dir.len() as int) == dir,
        path_join(dir, name).subrange(
            path_join(dir, name).len() - name.len(),
            path_join(dir, name).len() as int,
        ) == name,
{
    assert(name[0] != '/') by {
        assert(is_lower_hex(name[0]));
    }
    let j = path_join(dir, name);
    assert(j.subrange(0, dir.len() as int) =~= dir);
    assert(j.subrange(j.len() - name.len(), j.len() as int) =~= name);
}

} // verus!

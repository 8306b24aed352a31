//! Quake-style search paths over game directories and the packs in them.
//! Later game directories, and later packs within one, take precedence.
//! The library keeps the search order and decides where a name is found;
//! what is on disk comes from the file system around it.
use vstd::prelude::*;
use crate::pak::{Pak, PakEntry, PakError, entry_view};
use crate::text::{chars_of, chars_eq, contains_char, split_on, split_chars, views};

verus! {

#[derive(Debug, Clone, Copy, PartialEq, Eq)]
pub enum FsError {
    InvalidDir,
    InvalidPath,
    NotFound,
    Pak(PakError),
}

/// One place to look for files: a pack, or a directory on disk.
#[derive(Debug)]
pub enum SearchPath {
    Pack(Pak),
    Dir(String),
}

/// Where a name was found: in the pack at a search position, with its
/// entry, or as a file under the directory at a search position.
#[derive(Debug, Clone)]
pub enum Source {
    Pack(usize, PakEntry),
    Dir(usize),
}

/// Whether a file name stays inside the game directory (as `Path`
/// components on Unix read it): not empty, no `:` or NUL, not absolute,
/// and no `..` component.
pub open spec fn is_safe_relative(name: Seq<char>) -> bool {
    &&& name.len() > 0
    &&& !name.contains(':')
    &&& !name.contains('\0')
    &&& name[0] != '/'
    &&& forall|i: int| 0 <= i < split_on(name, '/').len() ==> #[trigger] split_on(name, '/')[i] != ".."@
}

/// Whether the search path at `i` holds `name`: its pack has an entry of
/// that name, or its directory has such a file (`on_disk[i]`).
pub open spec fn holds(paths: Seq<SearchPath>, on_disk: Seq<bool>, i: int, name: Seq<char>) -> bool {
    match paths[i] {
        SearchPath::Pack(p) => exists|k: int| 0 <= k < p.spec_entries().len() && (#[trigger] p.spec_entries()[k]).0 == name,
        SearchPath::Dir(_) => on_disk[i],
    }
}

pub struct QuakeFs {
    search_paths: Vec<SearchPath>,
}

/// Whether `name` is the literal `..`.
fn is_parent(piece: &[char]) -> (r: bool)
    ensures
        r == (piece@ == ".."@),
{
    chars_eq(piece, chars_of("..").as_slice())
}

/// Whether a file name stays inside the game directory.
pub fn is_safe_relative_path(name: &str) -> (r: bool)
    ensures
        r == is_safe_relative(name@),
{
    let chars = chars_of(name);
    if chars.len() == 0 || contains_char(chars.as_slice(), ':') || contains_char(chars.as_slice(), '\0') {
        return false;
    }
    if chars[0] == '/' {
        return false;
    }
    assert(chars@.skip(0) =~= chars@);
    let pieces = split_chars(chars.as_slice(), 0, '/');
    let mut i: usize = 0;
    while i < pieces.len()
        invariant
            i <= pieces@.len(),
            views(pieces@) == split_on(name@, '/'),
            forall|j: int| 0 <= j < i ==> #[trigger] split_on(name@, '/')[j] != ".."@,
        decreases pieces@.len() - i,
    {
        assert(pieces@[i as int]@ == split_on(name@, '/')[i as int]);
        if is_parent(pieces[i].as_slice()) {
            return false;
        }
        i = i + 1;
    }
    true
}

impl QuakeFs {
    pub closed spec fn paths(&self) -> Seq<SearchPath> {
        self.search_paths@
    }

    pub fn new() -> (r: Self)
        ensures
            r.paths().len() == 0,
    {
        QuakeFs { search_paths: Vec::new() }
    }

    pub fn is_empty(&self) -> (r: bool)
        ensures
            r == (self.paths().len() == 0),
    {
        self.search_paths.len() == 0
    }

    pub fn search_paths(&self) -> (r: &[SearchPath])
        ensures
            r@ == self.paths(),
    {
        self.search_paths.as_slice()
    }

    /// Puts a game directory ahead of the search paths: its packs, the
    /// last one first, then the directory itself.
    pub fn add_game_dir(&mut self, dir: String, packs: Vec<Pak>)
        ensures
            final(self).paths().len() == packs@.len() + 1 + old(self).paths().len(),
            forall|i: int| 0 <= i < packs@.len() ==> #[trigger] final(self).paths()[i] == SearchPath::Pack(
                packs@[packs@.len() - 1 - i],
            ),
            final(self).paths()[packs@.len() as int] == SearchPath::Dir(dir),
            forall|i: int| 0 <= i < old(self).paths().len() ==> #[trigger] final(self).paths()[packs@.len() + 1 + i]
                == old(self).paths()[i],
    {
        let mut packs = packs;
        let ghost original = packs@;
        let mut front: Vec<SearchPath> = Vec::new();
        while packs.len() > 0
            invariant
                packs@ == original.take(packs@.len() as int),
                front@.len() + packs@.len() == original.len(),
                forall|i: int| 0 <= i < front@.len() ==> #[trigger] front@[i] == SearchPath::Pack(original[original.len() - 1 - i]),
            decreases packs@.len(),
        {
            let ghost before = packs@;
            let p = packs.pop().unwrap();
            assert(p == original[original.len() - 1 - front@.len()]);
            front.push(SearchPath::Pack(p));
            assert(packs@ =~= original.take(packs@.len() as int));
        }
        front.push(SearchPath::Dir(dir));
        front.append(&mut self.search_paths);
        self.search_paths = front;
    }

    /// Where `name` is found: the first search path that holds it, given
    /// for each directory whether the file is on disk there.
    pub fn find_source(&self, name: &str, on_disk: &[bool]) -> (r: Result<Source, FsError>)
        requires
            on_disk@.len() == self.paths().len(),
        ensures
            !is_safe_relative(name@) ==> r matches Err(FsError::InvalidPath),
            is_safe_relative(name@) ==> match r {
                Ok(Source::Pack(i, e)) => {
                    &&& 0 <= i < self.paths().len()
                    &&& holds(self.paths(), on_disk@, i as int, name@)
                    &&& forall|j: int| 0 <= j < i ==> !holds(self.paths(), on_disk@, j, name@)
                    &&& self.paths()[i as int] matches SearchPath::Pack(p)
                    &&& e.name@ == name@
                    &&& exists|k: int| 0 <= k < p.spec_entries().len() && p.spec_entries()[k] == entry_view(e)
                },
                Ok(Source::Dir(i)) => {
                    &&& 0 <= i < self.paths().len()
                    &&& self.paths()[i as int] is Dir
                    &&& holds(self.paths(), on_disk@, i as int, name@)
                    &&& forall|j: int| 0 <= j < i ==> !holds(self.paths(), on_disk@, j, name@)
                },
                Err(e) => e is NotFound && forall|j: int| 0 <= j < self.paths().len() ==> !holds(self.paths(), on_disk@, j, name@),
            },
    {
        if !is_safe_relative_path(name) {
            return Err(FsError::InvalidPath);
        }
        let mut i: usize = 0;
        while i < self.search_paths.len()
            invariant
                i <= self.paths().len(),
                on_disk@.len() == self.paths().len(),
                is_safe_relative(name@),
                forall|j: int| 0 <= j < i ==> !holds(self.paths(), on_disk@, j, name@),
            decreases self.paths().len() - i,
        {
            match &self.search_paths[i] {
                SearchPath::Pack(pack) => {
                    match pack.find(name) {
                        Some(e) => {
                            return Ok(Source::Pack(i, e.clone_entry()));
                        },
                        None => {},
                    }
                },
                SearchPath::Dir(_) => {
                    if on_disk[i] {
                        return Ok(Source::Dir(i));
                    }
                },
            }
            i = i + 1;
        }
        Err(FsError::NotFound)
    }

    /// Whether some search path holds `name`, given for each directory
    /// whether the file is on disk there.
    pub fn contains(&self, name: &str, on_disk: &[bool]) -> (r: bool)
        requires
            on_disk@.len() == self.paths().len(),
        ensures
            r == (is_safe_relative(name@) && exists|j: int| 0 <= j < self.paths().len() && holds(self.paths(), on_disk@, j, name@)),
    {
        match self.find_source(name, on_disk) {
            Ok(_) => true,
            Err(_) => false,
        }
    }
}

} // verus!

//! Filesystem paths as the library models them: a flag for absoluteness and
//! the sequence of components.  Composition walks a path's ancestor chain,
//! so the model keeps components explicit instead of storing one string.

use vstd::prelude::*;

verus! {

/// Mathematical model of a path: whether it is absolute, and its components.
#[verifier::ext_equal]
pub struct PathModel {
    pub absolute: bool,
    pub parts: Seq<Seq<char>>,
}

/// A filesystem path: `/a/b` is `absolute: true, parts: ["a", "b"]`; the
/// root `/` has no parts.  Relative paths carry `absolute: false`.
#[derive(Debug)]
pub struct FsPath {
    absolute: bool,
    parts: Vec<String>,
}

impl View for FsPath {
    type V = PathModel;

    closed spec fn view(&self) -> PathModel {
        PathModel { absolute: self.absolute, parts: self.parts.deep_view() }
    }
}

/// The error type for interacting with config directory paths.
#[derive(Debug)]
pub enum Error {
    /// The resolved path (which already had a `.toml` extension) names no file.
    FileNotFound { name: String, path: FsPath },
    /// Neither the resolved path nor its `.toml` fallback names a file.
    FilesNotFound { name: String, name_toml: String, path: FsPath },
    /// The path is the root or ends in `..`, so it has no file name.
    RootOrPrefix(FsPath),
}

impl FsPath {
    /// Builds a path from its absoluteness flag and components.
    pub fn new(absolute: bool, parts: Vec<String>) -> (r: FsPath)
        ensures
            r@ == (PathModel { absolute, parts: parts.deep_view() }),
    {
        FsPath { absolute, parts }
    }

    /// The root path `/`.
    pub fn root() -> (r: FsPath)
        ensures
            r@.absolute,
            r@.parts.len() == 0,
    {
        FsPath { absolute: true, parts: Vec::new() }
    }

    pub fn is_absolute(&self) -> (r: bool)
        ensures
            r == self@.absolute,
    {
        self.absolute
    }

    /// The number of components.
    pub fn depth(&self) -> (r: usize)
        ensures
            r == self@.parts.len(),
    {
        self.parts.len()
    }

    /// The components, innermost last.
    pub fn parts(&self) -> (r: &Vec<String>)
        ensures
            r.deep_view() == self@.parts,
    {
        &self.parts
    }

    /// An owned copy of this path.
    pub fn dup(&self) -> (r: FsPath)
        ensures
            r@ == self@,
    {
        let mut parts: Vec<String> = Vec::new();
        proof {
            assert(self@.parts.len() == self.parts@.len());
        }
        let mut i: usize = 0;
        while i < self.parts.len()
            invariant
                i <= self.parts.len(),
                parts@.len() == i,
                self@.parts.len() == self.parts@.len(),
                parts.deep_view() == self@.parts.take(i as int),
            decreases self.parts.len() - i,
        {
            parts.push(self.parts[i].clone());
            proof {
                assert(parts.deep_view() =~~= self@.parts.take(i + 1 as int));
            }
            i = i + 1;
        }
        proof {
            assert(parts.deep_view() =~~= self@.parts);
        }
        FsPath { absolute: self.absolute, parts }
    }

    /// The parent directory: one component fewer; `None` for the root or for
    /// an empty relative path.
    pub fn parent(&self) -> (r: Option<FsPath>)
        ensures
            match r {
                Some(p) => self@.parts.len() > 0 && p@ == (PathModel {
                    absolute: self@.absolute,
                    parts: self@.parts.drop_last(),
                }),
                None => self@.parts.len() == 0,
            },
    {
        if self.parts.len() == 0 {
            None
        } else {
            let mut p = self.dup();
            p.parts.pop();
            proof {
                assert(p@.parts =~~= self@.parts.drop_last());
            }
            Some(p)
        }
    }

    /// `self` extended by the components of the relative path `other`.
    pub fn join(&self, other: &FsPath) -> (r: FsPath)
        ensures
            r@ == (PathModel {
                absolute: self@.absolute,
                parts: self@.parts + other@.parts,
            }),
    {
        let mut r = self.dup();
        proof {
            assert(other@.parts.len() == other.parts@.len());
            assert(r@.parts =~~= self@.parts + other@.parts.take(0));
        }
        let mut i: usize = 0;
        while i < other.parts.len()
            invariant
                i <= other.parts.len(),
                r@.absolute == self@.absolute,
                r.parts@.len() == self@.parts.len() + i,
                other@.parts.len() == other.parts@.len(),
                r@.parts == self@.parts + other@.parts.take(i as int),
            decreases other.parts.len() - i,
        {
            let ghost prev = r@.parts;
            r.parts.push(other.parts[i].clone());
            proof {
                assert(r@.parts =~~= prev.push(other@.parts[i as int]));
                assert(r@.parts =~~= self@.parts + other@.parts.take(i + 1 as int));
            }
            i = i + 1;
        }
        proof {
            assert(self@.parts + other@.parts.take(other@.parts.len() as int) =~~= self@.parts
                + other@.parts);
        }
        r
    }

    /// Whether the two paths are equal component for component.
    pub fn matches(&self, other: &FsPath) -> (r: bool)
        ensures
            r == (self@ == other@),
    {
        if self.absolute != other.absolute || self.parts.len() != other.parts.len() {
            proof {
                assert(self@ == other@ ==> self@.parts.len() == other@.parts.len());
            }
            return false;
        }
        let mut i: usize = 0;
        while i < self.parts.len()
            invariant
                i <= self.parts.len(),
                self.parts.len() == other.parts.len(),
                self@.absolute == other@.absolute,
                forall|j: int| 0 <= j < i ==> self@.parts[j] == other@.parts[j],
            decreases self.parts.len() - i,
        {
            if !(self.parts[i] == other.parts[i]) {
                proof {
                    assert(self@.parts[i as int] != other@.parts[i as int]);
                }
                return false;
            }
            i = i + 1;
        }
        proof {
            assert(self@.parts =~~= other@.parts);
        }
        true
    }

    /// The final component, if any.
    pub fn file_name(&self) -> (r: Option<&String>)
        ensures
            match r {
                Some(n) => self@.parts.len() > 0 && n@ == self@.parts.last(),
                None => self@.parts.len() == 0,
            },
    {
        if self.parts.len() == 0 {
            None
        } else {
            Some(&self.parts[self.parts.len() - 1])
        }
    }

    /// The same path with `.toml` appended to its final component; the
    /// fallback name tried when the path as given names no file.
    pub fn with_toml_appended(&self) -> (r: Option<FsPath>)
        ensures
            match r {
                Some(p) => self@.parts.len() > 0 && p@ == (PathModel {
                    absolute: self@.absolute,
                    parts: self@.parts.drop_last().push(self@.parts.last() + ".toml"@),
                }),
                None => self@.parts.len() == 0,
            },
    {
        if self.parts.len() == 0 {
            return None;
        }
        let last = self.parts[self.parts.len() - 1].clone();
        let extended = last.concat(".toml");
        let mut p = self.dup();
        p.parts.pop();
        p.parts.push(extended);
        proof {
            assert(p@.parts =~~= self@.parts.drop_last().push(self@.parts.last() + ".toml"@));
        }
        Some(p)
    }
}

/// Checks if `path` is absolute; if it is not, prepends the path `pre`.
/// `pre` must be absolute.
pub fn force_absolute(path: &FsPath, pre: &FsPath) -> (r: FsPath)
    requires
        pre@.absolute,
    ensures
        r@ == spec_force_absolute(path@, pre@),
        r@.absolute,
{
    if path.is_absolute() {
        path.dup()
    } else {
        pre.join(path)
    }
}

/// What `force_absolute` returns.
pub open spec fn spec_force_absolute(path: PathModel, pre: PathModel) -> PathModel {
    if path.absolute {
        path
    } else {
        PathModel { absolute: pre.absolute, parts: pre.parts + path.parts }
    }
}

/// Whether a file name has the `.toml` extension.
pub open spec fn spec_is_toml_name(n: Seq<char>) -> bool {
    n.len() > 5 && n.skip(n.len() - 5) == ".toml"@
}

/// The path with `.toml` appended to its final component.
pub open spec fn spec_with_toml(p: PathModel) -> PathModel {
    PathModel { absolute: p.absolute, parts: p.parts.drop_last().push(p.parts.last() + ".toml"@) }
}

/// Whether the string ends in `.toml`.
fn is_toml_name(name: &String) -> (r: bool)
    ensures
        r == spec_is_toml_name(name@),
{
    let n = name.as_str().unicode_len();
    if n <= 5 {
        return false;
    }
    let tail = name.as_str().substring_char(n - 5, n);
    proof {
        assert(tail@ =~= name@.skip(n - 5));
    }
    crate::text::str_eq(tail, ".toml")
}

/// Resolves a user-provided `path` to an absolute path using the absolute
/// prefix `pre` where needed.  The caller reports whether the resolved
/// path names a file (`path_exists`) and whether the same path with
/// `.toml` appended does (`fallback_exists`); this function decides which
/// of the two is the answer, or which error describes the failure: a path
/// with no file name at all, a missing `.toml` file, or a missing pair of
/// candidate files.
pub fn resolve(path: &FsPath, pre: &FsPath, path_exists: bool, fallback_exists: bool) -> (r:
    Result<FsPath, Error>)
    requires
        pre@.absolute,
    ensures
        ({
            let abs = spec_force_absolute(path@, pre@);
            match r {
                Ok(p) => (path_exists && p@ == abs) || (!path_exists && abs.parts.len() > 0
                    && fallback_exists && p@ == spec_with_toml(abs)),
                Err(Error::RootOrPrefix(q)) => !path_exists && abs.parts.len() == 0 && q@ == abs,
                Err(Error::FileNotFound { name, path: parent }) => {
                    &&& !path_exists
                    &&& !fallback_exists
                    &&& abs.parts.len() > 0
                    &&& spec_is_toml_name(abs.parts.last())
                    &&& name@ == abs.parts.last()
                    &&& parent@ == (PathModel {
                        absolute: abs.absolute,
                        parts: abs.parts.drop_last(),
                    })
                },
                Err(Error::FilesNotFound { name, name_toml, path: parent }) => {
                    &&& !path_exists
                    &&& !fallback_exists
                    &&& abs.parts.len() > 0
                    &&& !spec_is_toml_name(abs.parts.last())
                    &&& name@ == abs.parts.last()
                    &&& name_toml@ == abs.parts.last() + ".toml"@
                    &&& parent@ == (PathModel {
                        absolute: abs.absolute,
                        parts: abs.parts.drop_last(),
                    })
                },
            }
        }),
{
    let abs = force_absolute(path, pre);
    if path_exists {
        return Ok(abs);
    }
    let name = match abs.file_name() {
        Some(n) => n.clone(),
        None => {
            return Err(Error::RootOrPrefix(abs));
        },
    };
    if fallback_exists {
        match abs.with_toml_appended() {
            Some(p) => {
                return Ok(p);
            },
            None => {
                proof {
                    assert(false);
                }
                return Err(Error::RootOrPrefix(abs));
            },
        }
    }
    let parent = match abs.parent() {
        Some(p) => p,
        None => {
            proof {
                assert(false);
            }
            return Err(Error::RootOrPrefix(abs));
        },
    };
    if is_toml_name(&name) {
        Err(Error::FileNotFound { name, path: parent })
    } else {
        let name_toml = name.clone().concat(".toml");
        Err(Error::FilesNotFound { name, name_toml, path: parent })
    }
}

} // verus!

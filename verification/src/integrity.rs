//! Runtime validation: the `uv` probe verdict, the scripts directory check,
//! and the diagnostic index of Python script stems.
use vstd::prelude::*;
use vstd::string::StringExecFns;

use crate::text::{chars_of, chars_eq};

verus! {

/// The stem that a file name contributes to the script index: a name
/// `<stem>.py` with a non-empty stem (as `Path::file_stem` and
/// `Path::extension` split it), unless the stem starts with `__`.
pub open spec fn script_stem(name: Seq<char>) -> Option<Seq<char>> {
    if name.len() > 3 && name.subrange(name.len() - 3, name.len() as int) == ".py"@ {
        let stem = name.subrange(0, name.len() - 3);
        if stem.len() >= 2 && stem[0] == '_' && stem[1] == '_' {
            None
        } else {
            Some(stem)
        }
    } else {
        None
    }
}

/// The script stems that a list of file names yields.
pub open spec fn indexed(names: Seq<Seq<char>>) -> Set<Seq<char>> {
    Set::new(|s: Seq<char>| exists|i: int| 0 <= i < names.len() && script_stem(names[i]) == Some(s))
}

/// The texts of a vector of strings.
pub open spec fn string_views(v: Seq<String>) -> Seq<Seq<char>> {
    v.map_values(|s: String| s@)
}

/// The stem a file name contributes to the script index, if any.
pub fn script_stem_of(name: &str) -> (stem: Option<String>)
    ensures
        match stem {
            Some(s) => script_stem(name@) == Some(s@),
            None => script_stem(name@) is None,
        },
{
    proof {
        reveal_strlit(".py");
    }
    let c = chars_of(name);
    let n = c.len();
    if n > 3 && c[n - 3] == '.' && c[n - 2] == 'p' && c[n - 1] == 'y' {
        assert(c@.subrange(n - 3, n as int) =~= ".py"@);
        if c[0] == '_' && c[1] == '_' && n - 3 >= 2 {
            return None;
        }
        let mut stem: Vec<char> = Vec::new();
        let mut i: usize = 0;
        while i < n - 3
            invariant
                n == c@.len(),
                n > 3,
                i <= n - 3,
                stem@ == c@.subrange(0, i as int),
            decreases n - 3 - i,
        {
            stem.push(c[i]);
            i += 1;
            assert(stem@ =~= c@.subrange(0, i as int));
        }
        Some(crate::text::string_of(&stem))
    } else {
        proof {
            if n > 3 {
                assert(c@.subrange(n - 3, n as int) != ".py"@) by {
                    let t = c@.subrange(n - 3, n as int);
                    assert(t[0] != '.' || t[1] != 'p' || t[2] != 'y');
                }
            }
        }
        None
    }
}

/// What probing `uv --version` found.
#[derive(Debug, Clone, PartialEq, Eq)]
pub enum UvProbe {
    /// The command ran and exited successfully.
    Succeeded,
    /// The command ran and exited unsuccessfully; the text is the exit status.
    Exited(String),
    /// No executable exists at the configured path.
    NotFound,
    /// The command could not be run; the text is the error.
    Failed(String),
}

/// Why the runtime is not usable.
#[derive(Debug, Clone, PartialEq, Eq)]
pub enum IntegrityError {
    /// No `uv` executable at the configured path.
    UvNotFound { uv_path: String },
    /// `uv --version` exited unsuccessfully.
    UvStatus { uv_path: String, status: String },
    /// `uv` could not be run.
    UvFailed { uv_path: String, detail: String },
    /// The socket directory could not be created.
    SocketDirectory { detail: String },
    /// The scripts directory does not exist.
    MissingScriptsDirectory { scripts_dir: String },
}

/// The message of an integrity error.
pub open spec fn integrity_error_text(e: IntegrityError) -> Seq<char> {
    match e {
        IntegrityError::UvNotFound { uv_path } => "uv executable not found at '"@ + uv_path@ + "'"@,
        IntegrityError::UvStatus { uv_path, status } => "uv executable at '"@ + uv_path@
            + "' returned non-zero status: "@ + status@,
        IntegrityError::UvFailed { uv_path, detail } => "Failed to execute uv at '"@ + uv_path@
            + "': "@ + detail@,
        IntegrityError::SocketDirectory { detail } => "Failed to create socket directory: "@
            + detail@,
        IntegrityError::MissingScriptsDirectory { scripts_dir } => "Scripts directory does not exist: '"@
            + scripts_dir@ + "'"@,
    }
}

impl IntegrityError {
    /// The error's message.
    pub fn message(&self) -> (text: String)
        ensures
            text@ == integrity_error_text(*self),
    {
        match self {
            IntegrityError::UvNotFound { uv_path } => {
                let mut s = String::from_str("uv executable not found at '");
                s.append(uv_path.as_str());
                s.append("'");
                s
            },
            IntegrityError::UvStatus { uv_path, status } => {
                let mut s = String::from_str("uv executable at '");
                s.append(uv_path.as_str());
                s.append("' returned non-zero status: ");
                s.append(status.as_str());
                s
            },
            IntegrityError::UvFailed { uv_path, detail } => {
                let mut s = String::from_str("Failed to execute uv at '");
                s.append(uv_path.as_str());
                s.append("': ");
                s.append(detail.as_str());
                s
            },
            IntegrityError::SocketDirectory { detail } => {
                let mut s = String::from_str("Failed to create socket directory: ");
                s.append(detail.as_str());
                s
            },
            IntegrityError::MissingScriptsDirectory { scripts_dir } => {
                let mut s = String::from_str("Scripts directory does not exist: '");
                s.append(scripts_dir.as_str());
                s.append("'");
                s
            },
        }
    }
}

/// Runtime validator: the configured `uv` executable, the scripts
/// directory, and the diagnostic index of script stems found beneath it.
pub struct IntegrityChecker {
    uv_path: String,
    scripts_dir: String,
    registry: Vec<String>,
}

impl IntegrityChecker {
    /// The configured `uv` executable or command name.
    pub closed spec fn uv(&self) -> String {
        self.uv_path
    }

    /// The directory containing managed worker scripts.
    pub closed spec fn scripts_directory(&self) -> String {
        self.scripts_dir
    }

    /// The configured `uv` executable or command name.
    pub fn uv_path(&self) -> (p: &String)
        ensures
            *p == self.uv(),
    {
        &self.uv_path
    }

    /// The directory containing managed worker scripts.
    pub fn scripts_dir(&self) -> (d: &String)
        ensures
            *d == self.scripts_directory(),
    {
        &self.scripts_dir
    }

    /// The indexed script stems.
    pub closed spec fn scripts(&self) -> Set<Seq<char>> {
        string_views(self.registry@).to_set()
    }

    /// The index holds each stem once.
    pub closed spec fn wf(&self) -> bool {
        string_views(self.registry@).no_duplicates()
    }

    /// A checker for `scripts` and `uv_path`, with an empty index.
    pub fn new(scripts: &str, uv_path: &str) -> (c: Self)
        ensures
            c.uv()@ == uv_path@,
            c.scripts_directory()@ == scripts@,
            c.scripts().is_empty(),
            c.wf(),
    {
        let c = IntegrityChecker {
            uv_path: String::from_str(uv_path),
            scripts_dir: String::from_str(scripts),
            registry: Vec::new(),
        };
        assert(string_views(c.registry@) =~= Seq::<Seq<char>>::empty());
        c
    }

    /// The verdict on probing `uv --version`: only a successful exit passes.
    pub fn validate_uv(&self, probe: UvProbe) -> (r: Result<(), IntegrityError>)
        ensures
            r is Ok <==> probe is Succeeded,
            probe matches UvProbe::NotFound ==> r == Err::<(), IntegrityError>(
                IntegrityError::UvNotFound { uv_path: self.uv() },
            ),
            probe matches UvProbe::Exited(status) ==> r == Err::<(), IntegrityError>(
                IntegrityError::UvStatus { uv_path: self.uv(), status },
            ),
            probe matches UvProbe::Failed(detail) ==> r == Err::<(), IntegrityError>(
                IntegrityError::UvFailed { uv_path: self.uv(), detail },
            ),
    {
        match probe {
            UvProbe::Succeeded => Ok(()),
            UvProbe::Exited(status) => Err(
                IntegrityError::UvStatus { uv_path: self.uv_path.clone(), status },
            ),
            UvProbe::NotFound => Err(IntegrityError::UvNotFound { uv_path: self.uv_path.clone() }),
            UvProbe::Failed(detail) => Err(
                IntegrityError::UvFailed { uv_path: self.uv_path.clone(), detail },
            ),
        }
    }

    /// The verdict on the scripts directory: it must exist.
    pub fn check_scripts_directory(&self, exists: bool) -> (r: Result<(), IntegrityError>)
        ensures
            r is Ok <==> exists,
            !exists ==> r == Err::<(), IntegrityError>(
                IntegrityError::MissingScriptsDirectory { scripts_dir: self.scripts_directory() },
            ),
    {
        if exists {
            Ok(())
        } else {
            Err(IntegrityError::MissingScriptsDirectory { scripts_dir: self.scripts_dir.clone() })
        }
    }

    /// Whether the index holds `name`.
    fn indexed_contains(&self, name: &String) -> (r: bool)
        ensures
            r == self.scripts().contains(name@),
    {
        let target = chars_of(name.as_str());
        let mut i: usize = 0;
        while i < self.registry.len()
            invariant
                i <= self.registry@.len(),
                target@ == name@,
                forall|j: int| 0 <= j < i ==> string_views(self.registry@)[j] != name@,
            decreases self.registry.len() - i,
        {
            let other = chars_of(self.registry[i].as_str());
            if chars_eq(&other, &target) {
                assert(string_views(self.registry@)[i as int] == name@);
                assert(string_views(self.registry@).contains(name@));
                return true;
            }
            i += 1;
        }
        false
    }

    /// Rebuild the index from the names of the files found beneath the
    /// scripts directory (at any depth): it then holds exactly the stems of
    /// the `.py` files whose stems do not start with `__`, each once.
    pub fn index_scripts(&mut self, file_names: &Vec<String>)
        ensures
            final(self).scripts() == indexed(string_views(file_names@)),
            final(self).wf(),
            final(self).uv() == old(self).uv(),
            final(self).scripts_directory() == old(self).scripts_directory(),
    {
        self.registry = Vec::new();
        let ghost names = string_views(file_names@);
        let mut i: usize = 0;
        assert(string_views(self.registry@) =~= Seq::<Seq<char>>::empty());
        while i < file_names.len()
            invariant
                i <= file_names@.len(),
                names == string_views(file_names@),
                self.wf(),
                self.uv_path == old(self).uv_path,
                self.scripts_dir == old(self).scripts_dir,
                self.scripts() == indexed(names.subrange(0, i as int)),
            decreases file_names.len() - i,
        {
            let ghost before = self.registry@;
            match script_stem_of(file_names[i].as_str()) {
                Some(stem) => {
                    let ghost sv = stem@;
                    if !self.indexed_contains(&stem) {
                        self.registry.push(stem);
                        proof {
                            assert(string_views(self.registry@) =~= string_views(before).push(sv));
                            assert(string_views(self.registry@)[before.len() as int] == sv);
                            assert(string_views(self.registry@).contains(sv));
                            assert(!string_views(before).contains(sv));
                        }
                    } else {
                        assert(self.registry@ == before);
                    }
                    proof {
                        assert(self.scripts().contains(sv));
                        assert(script_stem(names[i as int]) == Some(sv));
                        assert forall|x: Seq<char>| #[trigger]
                            self.scripts().contains(x) implies string_views(before).to_set().contains(
                            x,
                        ) || x == sv by {
                            let k = choose|k: int|
                                0 <= k < string_views(self.registry@).len() && string_views(
                                    self.registry@,
                                )[k] == x;
                            if k < before.len() {
                                assert(string_views(before)[k] == x);
                            }
                        }
                        assert forall|x: Seq<char>| #[trigger]
                            string_views(before).to_set().contains(x) implies self.scripts().contains(
                            x,
                        ) by {
                            let k = choose|k: int|
                                0 <= k < string_views(before).len() && string_views(before)[k] == x;
                            assert(string_views(self.registry@)[k] == x);
                        }
                    }
                },
                None => {
                    assert(script_stem(names[i as int]) is None);
                },
            }
            proof {
                let prefix = names.subrange(0, i as int);
                let next = names.subrange(0, i + 1);
                assert(self.scripts() =~= indexed(next)) by {
                    assert forall|s: Seq<char>| indexed(next).contains(s) implies #[trigger]
                        self.scripts().contains(s) by {
                        let j = choose|j: int|
                            0 <= j < next.len() && script_stem(next[j]) == Some(s);
                        if j < i {
                            assert(prefix[j] == next[j]);
                            assert(indexed(prefix).contains(s));
                        } else {
                            assert(next[j] == names[i as int]);
                        }
                    }
                    assert forall|s: Seq<char>| #[trigger] self.scripts().contains(s) implies indexed(
                        next,
                    ).contains(s) by {
                        if string_views(before).to_set().contains(s) {
                            assert(string_views(before).to_set().contains(s));
                            assert(indexed(prefix).contains(s));
                            let j = choose|j: int|
                                0 <= j < prefix.len() && script_stem(prefix[j]) == Some(s);
                            assert(next[j] == prefix[j]);
                        } else {
                            assert(next[i as int] == names[i as int]);
                        }
                    }
                }
            }
            i += 1;
        }
        assert(names.subrange(0, file_names@.len() as int) =~= names);
    }

    /// Re-index from `file_names`, then report whether `script` is indexed.
    pub fn check_script(&mut self, file_names: &Vec<String>, script: &str) -> (found: bool)
        ensures
            final(self).scripts() == indexed(string_views(file_names@)),
            final(self).wf(),
            found == indexed(string_views(file_names@)).contains(script@),
            final(self).uv() == old(self).uv(),
            final(self).scripts_directory() == old(self).scripts_directory(),
    {
        self.index_scripts(file_names);
        self.indexed_contains(&String::from_str(script))
    }

    /// The indexed stems, for diagnostics.
    pub fn indexed_scripts(&self) -> (v: &Vec<String>)
        ensures
            string_views(v@).to_set() == self.scripts(),
            self.wf() ==> string_views(v@).no_duplicates(),
    {
        &self.registry
    }
}

} // verus!

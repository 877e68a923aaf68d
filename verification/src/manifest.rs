//! The declarative per-problem manifest and its resolved form. `solidify`
//! turns file entries with optional targets and permissions into a fully
//! path-resolved build description; it rejects any resolved work directory or
//! target path that is not absolute, since those become container filesystem
//! destinations.

use vstd::prelude::*;
use vstd::string::*;

use crate::error::SomaError;
use crate::name::NameString;
use crate::path::{is_absolute_path, join_path, path_is_absolute, spec_file_name, spec_join, file_name};
use crate::strutil::{octal_digits, u64_to_octal};

verus! {

/// The name of the manifest file inside a problem directory.
pub const MANIFEST_FILE_NAME: &'static str = "soma.toml";

/// The permission mode of a solidified file entry: a class default
/// (executable or read-only) or an explicit octal override.
#[derive(Clone, Copy, Debug, PartialEq, Eq, Structural)]
pub enum FilePermissions {
    /// An explicit mode, at most `0o777`.
    Custom(u16),
    /// The executable class default, `0o550`.
    Executable,
    /// The read-only class default, `0o440`.
    ReadOnly,
}

/// An octal digit.
pub open spec fn is_octal_digit(c: char) -> bool {
    '0' as u32 <= c as u32 && c as u32 <= '7' as u32
}

/// The numeric value of an octal digit.
pub open spec fn octal_digit_val(c: char) -> nat {
    (c as u32 - '0' as u32) as nat
}

/// A non-empty string of octal digits.
pub open spec fn is_octal_string(s: Seq<char>) -> bool {
    s.len() > 0 && forall|i: int| 0 <= i < s.len() ==> is_octal_digit(s[i])
}

/// The value of a string of octal digits.
pub open spec fn octal_value(s: Seq<char>) -> nat
    decreases s.len(),
{
    if s.len() == 0 {
        0
    } else {
        octal_value(s.subrange(0, s.len() - 1)) * 8 + octal_digit_val(s[s.len() - 1])
    }
}

impl FilePermissions {
    /// Parses an explicit permission string: a non-empty octal numeral whose
    /// value is at most `0o777`; anything else is rejected.
    pub fn from_octal_str(s: &str) -> (r: Option<FilePermissions>)
        ensures
            match r {
                Some(p) => is_octal_string(s@) && octal_value(s@) <= 0o777 && p
                    == FilePermissions::Custom(octal_value(s@) as u16),
                None => !(is_octal_string(s@) && octal_value(s@) <= 0o777),
            },
    {
        let len = s.unicode_len();
        if len == 0 {
            return None;
        }
        let mut acc: u16 = 0;
        let mut too_big: bool = false;
        let mut i: usize = 0;
        while i < len
            invariant
                0 <= i <= len,
                len == s@.len(),
                forall|j: int| 0 <= j < i ==> is_octal_digit(s@[j]),
                !too_big ==> acc == octal_value(s@.subrange(0, i as int)) && acc <= 0o777,
                too_big ==> octal_value(s@.subrange(0, i as int)) > 0o777,
            decreases len - i,
        {
            let c = s.get_char(i);
            let u = c as u32;
            if !('0' as u32 <= u && u <= '7' as u32) {
                proof {
                    assert(!is_octal_digit(s@[i as int]));
                }
                return None;
            }
            let d: u16 = (u - '0' as u32) as u16;
            proof {
                assert(s@.subrange(0, i + 1 as int).subrange(0, i as int) =~= s@.subrange(
                    0,
                    i as int,
                ));
                assert(octal_value(s@.subrange(0, i + 1 as int)) == octal_value(
                    s@.subrange(0, i as int),
                ) * 8 + octal_digit_val(s@[i as int]));
            }
            if too_big {
                proof {
                    assert(octal_value(s@.subrange(0, i + 1 as int)) > 0o777);
                }
            } else {
                let next: u16 = acc * 8 + d;
                if next > 0o777 {
                    too_big = true;
                } else {
                    acc = next;
                }
            }
            i += 1;
        }
        proof {
            assert(s@.subrange(0, len as int) =~= s@);
        }
        if too_big {
            None
        } else {
            Some(FilePermissions::Custom(acc))
        }
    }

    /// The octal rendering of the mode: the explicit value, or the class
    /// default (`550` for executable, `440` for read-only).
    pub open spec fn spec_permissions_string(self) -> Seq<char> {
        match self {
            FilePermissions::Custom(n) => octal_digits(n as nat),
            FilePermissions::Executable => seq!['5', '5', '0'],
            FilePermissions::ReadOnly => seq!['4', '4', '0'],
        }
    }

    /// Renders the mode as an octal numeral string.
    pub fn permissions_string(&self) -> (r: String)
        ensures
            r@ == self.spec_permissions_string(),
    {
        proof {
            reveal_strlit("550");
            reveal_strlit("440");
        }
        match self {
            FilePermissions::Custom(n) => u64_to_octal(*n as u64),
            FilePermissions::Executable => {
                let s = String::from_str("550");
                proof {
                    assert(s@ =~= seq!['5', '5', '0']);
                }
                s
            },
            FilePermissions::ReadOnly => {
                let s = String::from_str("440");
                proof {
                    assert(s@ =~= seq!['4', '4', '0']);
                }
                s
            },
        }
    }

    /// The numeric mode value.
    pub fn mode(&self) -> (r: u16)
        ensures
            r == match *self {
                FilePermissions::Custom(n) => n,
                FilePermissions::Executable => 0o550u16,
                FilePermissions::ReadOnly => 0o440u16,
            },
    {
        match self {
            FilePermissions::Custom(n) => *n,
            FilePermissions::Executable => 0o550,
            FilePermissions::ReadOnly => 0o440,
        }
    }
}

/// One declared file of a problem: its source path, whether it may be fetched
/// by operators, an optional explicit in-container target, and an optional
/// explicit permission mode.
pub struct FileEntry {
    /// Source path, relative to the problem directory.
    pub path: String,
    /// Whether the file is public; unset means private.
    pub public: Option<bool>,
    /// Explicit in-container target path; unset resolves to the work
    /// directory plus the source base name.
    pub target_path: Option<String>,
    /// Explicit permission mode; unset resolves to the class default.
    pub permissions: Option<FilePermissions>,
}

/// A fully resolved file entry: target is absolute, permissions concrete.
pub struct SolidFileEntry {
    /// Source path, relative to the problem directory.
    pub path: String,
    /// Whether the file is public.
    pub public: bool,
    /// Absolute in-container target path.
    pub target_path: String,
    /// The concrete permission mode.
    pub permissions: FilePermissions,
}

/// Whether an entry is public; the flag defaults to false.
pub open spec fn spec_public(e: FileEntry) -> bool {
    match e.public {
        Some(b) => b,
        None => false,
    }
}

/// The target path an entry resolves to: the explicit one, or the work
/// directory joined with the source base name; `None` when there is no base
/// name to use.
pub open spec fn spec_resolved_target(e: FileEntry, wd: Seq<char>) -> Option<Seq<char>> {
    match e.target_path {
        Some(t) => Some(t@),
        None => match spec_file_name(e.path@) {
            Some(b) => Some(spec_join(wd, b)),
            None => None,
        },
    }
}

/// The permission mode an entry resolves to, given its class default.
pub open spec fn spec_entry_permissions(e: FileEntry, default: FilePermissions) -> FilePermissions {
    match e.permissions {
        Some(p) => p,
        None => default,
    }
}

/// Why an entry fails to solidify, if it does: no base name for a defaulted
/// target, or a resolved target that is not absolute.
pub open spec fn entry_error(e: FileEntry, wd: Seq<char>) -> Option<SomaError> {
    match spec_resolved_target(e, wd) {
        None => Some(SomaError::FileNameNotFound),
        Some(t) => if !is_absolute_path(t) {
            Some(SomaError::InvalidManifest)
        } else {
            None
        },
    }
}

/// What a correctly solidified entry looks like.
pub open spec fn solid_entry_matches(
    se: SolidFileEntry,
    e: FileEntry,
    wd: Seq<char>,
    default: FilePermissions,
) -> bool {
    &&& se.path@ == e.path@
    &&& se.public == spec_public(e)
    &&& spec_resolved_target(e, wd) == Some(se.target_path@)
    &&& is_absolute_path(se.target_path@)
    &&& se.permissions == spec_entry_permissions(e, default)
}

impl FileEntry {
    /// Builds an entry from its parts.
    pub fn new(
        path: String,
        public: Option<bool>,
        target_path: Option<String>,
        permissions: Option<FilePermissions>,
    ) -> (r: FileEntry)
        ensures
            r.path == path,
            r.public == public,
            r.target_path == target_path,
            r.permissions == permissions,
    {
        FileEntry { path, public, target_path, permissions }
    }

    /// The source path.
    pub fn path(&self) -> (r: &String)
        ensures
            r == &self.path,
    {
        &self.path
    }

    /// Whether the entry is public; defaults to false.
    pub fn public(&self) -> (r: bool)
        ensures
            r == spec_public(*self),
    {
        match &self.public {
            Some(b) => *b,
            None => false,
        }
    }

    /// Resolves this entry against a work directory and a class default
    /// permission mode. Fails with `FileNameNotFound` when a defaulted target
    /// has no base name to use, and with `InvalidManifest` when the resolved
    /// target is not absolute.
    pub fn solidify(&self, work_dir: &str, permissions: FilePermissions) -> (r: Result<
        SolidFileEntry,
        SomaError,
    >)
        ensures
            match r {
                Ok(se) => entry_error(*self, work_dir@) is None && solid_entry_matches(
                    se,
                    *self,
                    work_dir@,
                    permissions,
                ),
                Err(e) => entry_error(*self, work_dir@) == Some(e),
            },
    {
        let target_path: String = match &self.target_path {
            Some(p) => p.clone(),
            None => {
                match file_name(self.path.as_str()) {
                    Some(b) => join_path(work_dir, b.as_str()),
                    None => {
                        return Err(SomaError::FileNameNotFound);
                    },
                }
            },
        };
        if !path_is_absolute(target_path.as_str()) {
            return Err(SomaError::InvalidManifest);
        }
        let resolved = match &self.permissions {
            Some(p) => *p,
            None => permissions,
        };
        Ok(
            SolidFileEntry {
                path: self.path.clone(),
                public: self.public(),
                target_path,
                permissions: resolved,
            },
        )
    }
}

impl SolidFileEntry {
    /// The source path and the absolute target it is copied to.
    pub fn path_map(&self) -> (r: (&String, &String))
        ensures
            r.0 == &self.path,
            r.1 == &self.target_path,
    {
        (&self.path, &self.target_path)
    }
}

/// The launch configuration of a problem: its base system, launch command,
/// and the executable and read-only file sets.
pub struct BinaryConfig {
    /// The base operating system of the image.
    pub os: String,
    /// The launch command.
    pub cmd: String,
    /// Files installed with the executable class default mode.
    pub executable: Vec<FileEntry>,
    /// Files installed with the read-only class default mode.
    pub readonly: Vec<FileEntry>,
}

/// The resolved launch configuration.
pub struct SolidBinaryConfig {
    /// The base operating system of the image.
    pub os: String,
    /// The launch command.
    pub cmd: String,
    /// All resolved entries, executable class first.
    pub file_entries: Vec<SolidFileEntry>,
}

/// All entries of a configuration in solidify order: executable class first,
/// then read-only.
pub open spec fn all_entries(b: BinaryConfig) -> Seq<FileEntry> {
    b.executable@ + b.readonly@
}

/// The class default mode of the entry at position `i` of `all_entries`.
pub open spec fn default_perm_at(b: BinaryConfig, i: int) -> FilePermissions {
    if i < b.executable@.len() {
        FilePermissions::Executable
    } else {
        FilePermissions::ReadOnly
    }
}

/// What a correct solidification of a whole configuration looks like.
pub open spec fn solid_config_matches(sb: SolidBinaryConfig, b: BinaryConfig, wd: Seq<char>) -> bool {
    &&& sb.os@ == b.os@
    &&& sb.cmd@ == b.cmd@
    &&& sb.file_entries@.len() == all_entries(b).len()
    &&& forall|i: int|
        0 <= i < all_entries(b).len() ==> solid_entry_matches(
            #[trigger] sb.file_entries@[i],
            all_entries(b)[i],
            wd,
            default_perm_at(b, i),
        )
}

/// The error of the first entry at or after position `i` (in solidify order)
/// that does not resolve, if any.
pub open spec fn first_config_error_from(b: BinaryConfig, wd: Seq<char>, i: int) -> Option<
    SomaError,
>
    decreases all_entries(b).len() - i,
    when 0 <= i <= all_entries(b).len()
{
    if i >= all_entries(b).len() {
        None
    } else {
        match entry_error(all_entries(b)[i], wd) {
            Some(e) => Some(e),
            None => first_config_error_from(b, wd, i + 1),
        }
    }
}

/// The error a configuration's solidification produces, if any: that of the
/// first entry that does not resolve.
pub open spec fn first_config_error(b: BinaryConfig, wd: Seq<char>) -> Option<SomaError> {
    first_config_error_from(b, wd, 0)
}

/// When the first `i` entries all resolve, the first error of the whole
/// configuration is the first error from position `i` on.
proof fn lemma_first_config_error_skip(b: BinaryConfig, wd: Seq<char>, i: int)
    requires
        0 <= i <= all_entries(b).len(),
        forall|j: int| 0 <= j < i ==> entry_error(all_entries(b)[j], wd) is None,
    ensures
        first_config_error(b, wd) == first_config_error_from(b, wd, i),
    decreases i,
{
    if i > 0 {
        lemma_first_config_error_skip(b, wd, i - 1);
        assert(entry_error(all_entries(b)[i - 1], wd) is None);
    }
}

impl BinaryConfig {
    /// Builds a configuration from its parts.
    pub fn new(os: String, cmd: String, executable: Vec<FileEntry>, readonly: Vec<FileEntry>) -> (r:
        BinaryConfig)
        ensures
            r.os == os,
            r.cmd == cmd,
            r.executable == executable,
            r.readonly == readonly,
    {
        BinaryConfig { os, cmd, executable, readonly }
    }

    /// The executable-class entries.
    pub fn executable(&self) -> (r: &Vec<FileEntry>)
        ensures
            r == &self.executable,
    {
        &self.executable
    }

    /// The read-only-class entries.
    pub fn readonly(&self) -> (r: &Vec<FileEntry>)
        ensures
            r == &self.readonly,
    {
        &self.readonly
    }

    /// Resolves every entry against the work directory, executable class
    /// first; the first entry that fails decides the error.
    pub fn solidify(&self, work_dir: &str) -> (r: Result<SolidBinaryConfig, SomaError>)
        ensures
            match r {
                Ok(sb) => first_config_error(*self, work_dir@) is None && solid_config_matches(
                    sb,
                    *self,
                    work_dir@,
                ),
                Err(e) => first_config_error(*self, work_dir@) == Some(e),
            },
    {
        let mut file_entries: Vec<SolidFileEntry> = Vec::new();
        let exec_len = self.executable.len();
        let mut i: usize = 0;
        while i < exec_len
            invariant
                0 <= i <= exec_len,
                exec_len == self.executable@.len(),
                file_entries@.len() == i,
                forall|j: int|
                    0 <= j < i ==> solid_entry_matches(
                        #[trigger] file_entries@[j],
                        all_entries(*self)[j],
                        work_dir@,
                        default_perm_at(*self, j),
                    ),
            decreases exec_len - i,
        {
            proof {
                assert(all_entries(*self)[i as int] == self.executable@[i as int]);
            }
            match self.executable[i].solidify(work_dir, FilePermissions::Executable) {
                Ok(se) => {
                    file_entries.push(se);
                },
                Err(e) => {
                    proof {
                        assert forall|j: int| 0 <= j < i implies entry_error(
                            all_entries(*self)[j],
                            work_dir@,
                        ) is None by {
                            assert(solid_entry_matches(
                                file_entries@[j],
                                all_entries(*self)[j],
                                work_dir@,
                                default_perm_at(*self, j),
                            ));
                        }
                        lemma_first_config_error_skip(*self, work_dir@, i as int);
                        assert(first_config_error_from(*self, work_dir@, i as int) == Some(e));
                    }
                    return Err(e);
                },
            }
            i += 1;
        }
        let ro_len = self.readonly.len();
        let mut k: usize = 0;
        while k < ro_len
            invariant
                0 <= k <= ro_len,
                ro_len == self.readonly@.len(),
                exec_len == self.executable@.len(),
                file_entries@.len() == exec_len + k,
                forall|j: int|
                    0 <= j < exec_len + k ==> solid_entry_matches(
                        #[trigger] file_entries@[j],
                        all_entries(*self)[j],
                        work_dir@,
                        default_perm_at(*self, j),
                    ),
            decreases ro_len - k,
        {
            proof {
                assert(all_entries(*self)[exec_len + k] == self.readonly@[k as int]);
            }
            match self.readonly[k].solidify(work_dir, FilePermissions::ReadOnly) {
                Ok(se) => {
                    file_entries.push(se);
                },
                Err(e) => {
                    proof {
                        assert forall|j: int| 0 <= j < exec_len + k implies entry_error(
                            all_entries(*self)[j],
                            work_dir@,
                        ) is None by {
                            assert(solid_entry_matches(
                                file_entries@[j],
                                all_entries(*self)[j],
                                work_dir@,
                                default_perm_at(*self, j),
                            ));
                        }
                        lemma_first_config_error_skip(*self, work_dir@, exec_len + k);
                        assert(first_config_error_from(*self, work_dir@, exec_len + k) == Some(e));
                    }
                    return Err(e);
                },
            }
            k += 1;
        }
        proof {
            assert forall|j: int| 0 <= j < all_entries(*self).len() implies entry_error(
                all_entries(*self)[j],
                work_dir@,
            ) is None by {
                assert(solid_entry_matches(
                    file_entries@[j],
                    all_entries(*self)[j],
                    work_dir@,
                    default_perm_at(*self, j),
                ));
            }
            lemma_first_config_error_skip(*self, work_dir@, all_entries(*self).len() as int);
        }
        Ok(SolidBinaryConfig { os: self.os.clone(), cmd: self.cmd.clone(), file_entries })
    }
}

impl SolidBinaryConfig {
    /// The resolved entries.
    pub fn file_entries(&self) -> (r: &Vec<SolidFileEntry>)
        ensures
            r == &self.file_entries,
    {
        &self.file_entries
    }
}

/// A declarative per-problem manifest.
pub struct Manifest {
    /// The problem's name.
    pub name: NameString,
    /// The work directory; unset resolves to `/home/<name>`.
    pub work_dir: Option<String>,
    /// The launch configuration.
    pub binary: BinaryConfig,
}

/// A fully resolved manifest: work directory and every target absolute.
pub struct SolidManifest {
    /// The problem's name.
    pub name: NameString,
    /// The absolute work directory.
    pub work_dir: String,
    /// The resolved launch configuration.
    pub binary: SolidBinaryConfig,
}

/// The work directory a manifest resolves to: the declared one, or
/// `/home/<name>`.
pub open spec fn spec_resolved_work_dir(m: Manifest) -> Seq<char> {
    match m.work_dir {
        Some(w) => w@,
        None => "/home/"@ + m.name@,
    }
}

/// The error a manifest's solidification produces, if any: a work directory
/// that is not absolute, else the first entry that does not resolve.
pub open spec fn spec_manifest_error(m: Manifest) -> Option<SomaError> {
    if !is_absolute_path(spec_resolved_work_dir(m)) {
        Some(SomaError::InvalidManifest)
    } else {
        first_config_error(m.binary, spec_resolved_work_dir(m))
    }
}

/// The public source paths of a manifest, executable class first, in
/// declaration order.
pub open spec fn spec_public_paths(entries: Seq<FileEntry>) -> Seq<Seq<char>>
    decreases entries.len(),
{
    if entries.len() == 0 {
        Seq::empty()
    } else {
        let rest = spec_public_paths(entries.subrange(0, entries.len() - 1));
        if spec_public(entries[entries.len() - 1]) {
            rest.push(entries[entries.len() - 1].path@)
        } else {
            rest
        }
    }
}

impl Manifest {
    /// Builds a manifest from its parts.
    pub fn new(name: NameString, work_dir: Option<String>, binary: BinaryConfig) -> (r: Manifest)
        ensures
            r.name == name,
            r.work_dir == work_dir,
            r.binary == binary,
    {
        Manifest { name, work_dir, binary }
    }

    /// The problem's name.
    pub fn name(&self) -> (r: &NameString)
        ensures
            r == &self.name,
    {
        &self.name
    }

    /// The source paths of the entries flagged public — the only files a
    /// fetch operation may copy out.
    pub fn public_files(&self) -> (r: Vec<String>)
        ensures
            r.deep_view() == spec_public_paths(all_entries(self.binary)),
    {
        let mut out: Vec<String> = Vec::new();
        let exec_len = self.binary.executable.len();
        let ro_len = self.binary.readonly.len();
        let ghost all = all_entries(self.binary);
        let mut i: usize = 0;
        while i < exec_len
            invariant
                0 <= i <= exec_len,
                exec_len == self.binary.executable@.len(),
                all == all_entries(self.binary),
                out.deep_view() == spec_public_paths(all.subrange(0, i as int)),
            decreases exec_len - i,
        {
            proof {
                assert(all.subrange(0, i + 1 as int).subrange(0, i as int) =~= all.subrange(
                    0,
                    i as int,
                ));
                assert(all.subrange(0, i + 1 as int)[i as int] == self.binary.executable@[i as int]);
            }
            if self.binary.executable[i].public() {
                out.push(self.binary.executable[i].path.clone());
            }
            proof {
                assert(out.deep_view() =~= spec_public_paths(all.subrange(0, i + 1 as int)));
            }
            i += 1;
        }
        let mut k: usize = 0;
        while k < ro_len
            invariant
                0 <= k <= ro_len,
                ro_len == self.binary.readonly@.len(),
                exec_len == self.binary.executable@.len(),
                all == all_entries(self.binary),
                out.deep_view() == spec_public_paths(all.subrange(0, exec_len + k)),
            decreases ro_len - k,
        {
            proof {
                assert(all.subrange(0, exec_len + k + 1).subrange(0, exec_len + k) =~= all.subrange(
                    0,
                    exec_len + k,
                ));
                assert(all.subrange(0, exec_len + k + 1)[exec_len + k] == self.binary.readonly@[k as int]);
            }
            if self.binary.readonly[k].public() {
                out.push(self.binary.readonly[k].path.clone());
            }
            proof {
                assert(out.deep_view() =~= spec_public_paths(all.subrange(0, exec_len + k + 1)));
            }
            k += 1;
        }
        proof {
            assert(all.subrange(0, all.len() as int) =~= all);
        }
        out
    }

    /// Resolves the manifest. Fails with `InvalidManifest` when the resolved
    /// work directory is not absolute; otherwise the first entry (executable
    /// class first) that fails to resolve decides the error.
    pub fn solidify(&self) -> (r: Result<SolidManifest, SomaError>)
        ensures
            match r {
                Ok(sm) => {
                    &&& spec_manifest_error(*self) is None
                    &&& sm.name@ == self.name@
                    &&& sm.work_dir@ == spec_resolved_work_dir(*self)
                    &&& solid_config_matches(sm.binary, self.binary, spec_resolved_work_dir(*self))
                },
                Err(e) => spec_manifest_error(*self) == Some(e),
            },
    {
        let work_dir: String = match &self.work_dir {
            Some(p) => p.clone(),
            None => {
                proof {
                    reveal_strlit("/home/");
                }
                let mut s = String::from_str("/home/");
                s.append(self.name.as_str());
                s
            },
        };
        if !path_is_absolute(work_dir.as_str()) {
            return Err(SomaError::InvalidManifest);
        }
        let binary = self.binary.solidify(work_dir.as_str())?;
        Ok(SolidManifest { name: self.name.clone(), work_dir, binary })
    }
}

impl SolidManifest {
    /// The resolved launch configuration.
    pub fn binary(&self) -> (r: &SolidBinaryConfig)
        ensures
            r == &self.binary,
    {
        &self.binary
    }
}

/// When every entry error from position `lo` on is either absent or
/// `InvalidManifest`, and some entry at or after `lo` does fail, the first
/// error from `lo` is `InvalidManifest`.
proof fn lemma_first_config_error_invalid(b: BinaryConfig, wd: Seq<char>, lo: int, i: int)
    requires
        0 <= lo <= i < all_entries(b).len(),
        entry_error(all_entries(b)[i], wd) == Some(SomaError::InvalidManifest),
        forall|j: int|
            lo <= j < all_entries(b).len() ==> (entry_error(all_entries(b)[j], wd) is None
                || entry_error(all_entries(b)[j], wd) == Some(SomaError::InvalidManifest)),
    ensures
        first_config_error_from(b, wd, lo) == Some(SomaError::InvalidManifest),
    decreases i - lo,
{
    if entry_error(all_entries(b)[lo], wd) is None {
        lemma_first_config_error_invalid(b, wd, lo + 1, i);
    }
}

/// Solidify safety: in a manifest whose work directory resolves to an
/// absolute path and whose entries all resolve to some target, any entry
/// whose resolved target path is relative — whichever entry it is, not only
/// the first — makes solidification fail with `InvalidManifest`.
pub proof fn lemma_solidify_rejects_relative_target(m: Manifest, i: int)
    requires
        forall|j: int|
            0 <= j < all_entries(m.binary).len() ==> spec_resolved_target(
                #[trigger] all_entries(m.binary)[j],
                spec_resolved_work_dir(m),
            ) is Some,
        0 <= i < all_entries(m.binary).len(),
        !is_absolute_path(
            spec_resolved_target(all_entries(m.binary)[i], spec_resolved_work_dir(m))->Some_0,
        ),
    ensures
        spec_manifest_error(m) == Some(SomaError::InvalidManifest),
{
    let wd = spec_resolved_work_dir(m);
    if is_absolute_path(wd) {
        assert(entry_error(all_entries(m.binary)[i], wd) == Some(SomaError::InvalidManifest));
        assert forall|j: int| 0 <= j < all_entries(m.binary).len() implies (entry_error(
            all_entries(m.binary)[j],
            wd,
        ) is None || entry_error(all_entries(m.binary)[j], wd) == Some(
            SomaError::InvalidManifest,
        )) by {
            assert(spec_resolved_target(all_entries(m.binary)[j], wd) is Some);
        }
        lemma_first_config_error_invalid(m.binary, wd, 0, i);
    }
}

} // verus!

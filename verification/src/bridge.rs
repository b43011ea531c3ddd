//! The decisions around the managed Roslyn helper: which executable to run,
//! whether its execute bits need restoring, which bundle fits the platform,
//! and what counts as a usable reply.
//!
//! Probing the file system and running the helper are left to the caller;
//! these functions take what the probes found.
use vstd::prelude::*;

use crate::text::{chars_eq_str, chars_of, push_str, string_from_chars, trim, trim_str};

verus! {

/// A place where the helper executable may be: its path, whether a file is
/// there, and that file's permission bits when they could be read.
#[derive(Debug, Clone)]
pub struct HelperCandidate {
    pub path: String,
    pub is_file: bool,
    pub mode: Option<u32>,
}

/// What probing found, in the order the helper is looked for: the
/// `CODEGRAPH_ROSLYN_BRIDGE` override (when set), the bundles inside the
/// installed app's resource directory, and the development-tree bundle for
/// the platform `rid`.
#[derive(Debug, Clone)]
pub struct HelperProbe {
    pub env_override: Option<HelperCandidate>,
    pub bundled: Vec<HelperCandidate>,
    pub dev: HelperCandidate,
    pub rid: String,
}

/// Why no helper was found.
#[derive(Debug, Clone, PartialEq, Eq)]
pub enum LocateError {
    /// The override names something that is not a file.
    OverrideNotAFile(String),
    /// No bundle exists for the platform; the platform and the path probed.
    NoBundle(String, String),
}

/// Why the bridge could not be used.
#[derive(Debug, Clone, PartialEq, Eq)]
pub enum BridgeError {
    /// No helper was found by `Bridge::init`.
    NotFoundInTree(LocateError),
    /// No helper was found by `Bridge::init_with_resource_dir`.
    NotFoundInstalled(LocateError),
    /// The helper printed nothing.
    EmptyOutput,
}

impl LocateError {
    /// The error's message.
    pub open spec fn message_spec(self) -> Seq<char> {
        match self {
            LocateError::OverrideNotAFile(p) => "CODEGRAPH_ROSLYN_BRIDGE set but not a file: "@ + p@,
            LocateError::NoBundle(rid, p) => "no RoslynBridge bundle for "@ + rid@ + " at "@ + p@,
        }
    }

    /// The error's message.
    pub fn message(&self) -> (s: String)
        ensures
            s@ == self.message_spec(),
    {
        let mut out: Vec<char> = Vec::new();
        match self {
            LocateError::OverrideNotAFile(p) => {
                push_str(&mut out, "CODEGRAPH_ROSLYN_BRIDGE set but not a file: ");
                push_str(&mut out, p.as_str());
            },
            LocateError::NoBundle(rid, p) => {
                push_str(&mut out, "no RoslynBridge bundle for ");
                push_str(&mut out, rid.as_str());
                push_str(&mut out, " at ");
                push_str(&mut out, p.as_str());
            },
        }
        string_from_chars(out.as_slice())
    }
}

impl BridgeError {
    /// The error's message (the outermost context).
    pub open spec fn message_spec(self) -> Seq<char> {
        match self {
            BridgeError::NotFoundInTree(_) => "could not locate a RoslynBridge bundle for this platform; build one once with `./scripts/build-roslyn-bridge.sh` (requires the .NET SDK), or point CODEGRAPH_ROSLYN_BRIDGE at a prebuilt RoslynBridge executable"@,
            BridgeError::NotFoundInstalled(_) => "could not locate a RoslynBridge bundle for this platform; reinstall the app (the helper ships inside the installer), or point CODEGRAPH_ROSLYN_BRIDGE at a prebuilt RoslynBridge executable"@,
            BridgeError::EmptyOutput => "RoslynBridge returned no output"@,
        }
    }

    /// The error's message (the outermost context).
    pub fn message(&self) -> (s: String)
        ensures
            s@ == self.message_spec(),
    {
        let mut out: Vec<char> = Vec::new();
        match self {
            BridgeError::NotFoundInTree(_) => push_str(&mut out, "could not locate a RoslynBridge bundle for this platform; build one once with `./scripts/build-roslyn-bridge.sh` (requires the .NET SDK), or point CODEGRAPH_ROSLYN_BRIDGE at a prebuilt RoslynBridge executable"),
            BridgeError::NotFoundInstalled(_) => push_str(&mut out, "could not locate a RoslynBridge bundle for this platform; reinstall the app (the helper ships inside the installer), or point CODEGRAPH_ROSLYN_BRIDGE at a prebuilt RoslynBridge executable"),
            BridgeError::EmptyOutput => push_str(&mut out, "RoslynBridge returned no output"),
        }
        string_from_chars(out.as_slice())
    }
}

/// The permission bits to set so that a file with bits `mode` can be run:
/// none when some execute bit is already set, else `mode | 0o755`.
pub open spec fn executable_mode_spec(mode: u32) -> Option<u32> {
    if mode & 0o111u32 == 0 {
        Some(mode | 0o755u32)
    } else {
        None
    }
}

/// The permission bits to set so that a file with bits `mode` can be run.
pub fn executable_mode(mode: u32) -> (r: Option<u32>)
    ensures
        r == executable_mode_spec(mode),
{
    if mode & 0o111u32 == 0 {
        Some(mode | 0o755u32)
    } else {
        None
    }
}

/// The permission bits chosen for a file without execute bits keep its
/// existing bits and add read and execute for everyone and write for the
/// owner.
pub proof fn lemma_executable_mode(mode: u32)
    ensures
        executable_mode_spec(mode) matches Some(m) ==> (m & 0o111u32 != 0 && m & mode == mode && m & 0o755u32 == 0o755u32),
        executable_mode_spec(mode) is None ==> mode & 0o111u32 != 0,
{
    assert(mode & 0o111u32 == 0 ==> ((mode | 0o755u32) & 0o111u32 != 0 && (mode | 0o755u32) & mode == mode && (mode | 0o755u32) & 0o755u32 == 0o755u32)) by (bit_vector);
}

/// The helper that was found: its path, and the permission bits to set on
/// it first when it lacks execute bits.
#[derive(Debug, Clone)]
pub struct Located {
    pub path: String,
    pub new_mode: Option<u32>,
}

/// `i` is the first candidate of `cs` that is a file.
pub open spec fn is_first_file(cs: Seq<HelperCandidate>, i: int) -> bool {
    &&& 0 <= i < cs.len()
    &&& cs[i].is_file
    &&& forall|j: int| 0 <= j < i ==> !(#[trigger] cs[j]).is_file
}

/// The first bundled candidate that is a file, if any.
pub open spec fn first_bundled(cs: Seq<HelperCandidate>) -> Option<int> {
    if exists|i: int| is_first_file(cs, i) {
        Some(choose|i: int| is_first_file(cs, i))
    } else {
        None
    }
}

/// The permission fix for a bundled helper whose bits were read as `mode`.
pub open spec fn bundle_mode_fix(mode: Option<u32>) -> Option<u32> {
    match mode {
        Some(m) => executable_mode_spec(m),
        None => None,
    }
}

/// Where the helper is, given the probe: the override when set (an error
/// when it is not a file), else the first bundled candidate that is a file
/// (restoring its execute bits), else the development-tree bundle.
pub open spec fn locate_spec(probe: HelperProbe, use_bundled: bool) -> Result<(Seq<char>, Option<u32>), LocateError> {
    match probe.env_override {
        Some(c) => if c.is_file {
            Ok((c.path@, None))
        } else {
            Err(LocateError::OverrideNotAFile(c.path))
        },
        None => {
            if use_bundled && first_bundled(probe.bundled@) is Some {
                let c = probe.bundled@[first_bundled(probe.bundled@)->0];
                Ok((c.path@, bundle_mode_fix(c.mode)))
            } else if probe.dev.is_file {
                Ok((probe.dev.path@, None))
            } else {
                Err(LocateError::NoBundle(probe.rid, probe.dev.path))
            }
        },
    }
}

/// The view of a located helper.
pub open spec fn located_view(r: Result<Located, LocateError>) -> Result<(Seq<char>, Option<u32>), LocateError> {
    match r {
        Ok(l) => Ok((l.path@, l.new_mode)),
        Err(e) => Err(e),
    }
}

/// Find the helper given what probing found; bundled candidates are
/// considered only when `use_bundled`.
pub fn locate_helper(probe: &HelperProbe, use_bundled: bool) -> (r: Result<Located, LocateError>)
    ensures
        located_view(r) == locate_spec(*probe, use_bundled),
{
    match &probe.env_override {
        Some(c) => {
            if c.is_file {
                return Ok(Located { path: c.path.clone(), new_mode: None });
            } else {
                return Err(LocateError::OverrideNotAFile(c.path.clone()));
            }
        },
        None => {},
    }
    if use_bundled {
        let n = probe.bundled.len();
        for i in 0..n
            invariant
                n == probe.bundled.len(),
                probe.env_override is None,
                use_bundled,
                forall|j: int| 0 <= j < i ==> !(#[trigger] probe.bundled@[j]).is_file,
        {
            let c = &probe.bundled[i];
            if c.is_file {
                proof {
                    assert(is_first_file(probe.bundled@, i as int));
                    let f = choose|f: int| is_first_file(probe.bundled@, f);
                    if f < i {
                        assert(!probe.bundled@[f].is_file);
                    } else if i < f {
                        assert(!probe.bundled@[i as int].is_file);
                    }
                }
                let fix = match c.mode {
                    Some(m) => executable_mode(m),
                    None => None,
                };
                return Ok(Located { path: c.path.clone(), new_mode: fix });
            }
        }
    }
    proof {
        if use_bundled {
            assert(!exists|i: int| is_first_file(probe.bundled@, i));
        }
    }
    if probe.dev.is_file {
        Ok(Located { path: probe.dev.path.clone(), new_mode: None })
    } else {
        Err(LocateError::NoBundle(probe.rid.clone(), probe.dev.path.clone()))
    }
}

/// The `CODEGRAPH_ROSLYN_BRIDGE` override always wins: when it names a
/// file, the helper is that file with or without a resource directory,
/// whatever bundles exist.
pub proof fn lemma_override_wins(probe: HelperProbe)
    requires
        probe.env_override matches Some(c) && c.is_file,
    ensures
        locate_spec(probe, true) == locate_spec(probe, false),
        locate_spec(probe, true) == Ok::<(Seq<char>, Option<u32>), LocateError>((probe.env_override->0.path@, None)),
{
}

/// Without an override, a bundle inside the installed app is preferred over
/// the development tree, and the development tree is the fallback.
pub proof fn lemma_bundle_preferred(probe: HelperProbe)
    requires
        probe.env_override is None,
    ensures
        first_bundled(probe.bundled@) matches Some(i) ==> locate_spec(probe, true) == Ok::<(Seq<char>, Option<u32>), LocateError>((probe.bundled@[i].path@, bundle_mode_fix(probe.bundled@[i].mode))),
        first_bundled(probe.bundled@) is None ==> locate_spec(probe, true) == locate_spec(probe, false),
        probe.dev.is_file ==> locate_spec(probe, false) == Ok::<(Seq<char>, Option<u32>), LocateError>((probe.dev.path@, None)),
{
}

/// Without an override, when bundles are considered and some bundled
/// candidate is a file, the helper is the first bundled candidate that is a
/// file, whatever is known of its permission bits: when they could not be
/// read it is still chosen, with no permission fix; when they were read,
/// execute bits are added only if it has none.
pub proof fn lemma_first_bundled_file_wins(probe: HelperProbe, i: int)
    requires
        probe.env_override is None,
        0 <= i < probe.bundled@.len(),
        probe.bundled@[i].is_file,
        forall|j: int| 0 <= j < i ==> !(#[trigger] probe.bundled@[j]).is_file,
    ensures
        locate_spec(probe, true) == Ok::<(Seq<char>, Option<u32>), LocateError>((
            probe.bundled@[i].path@,
            match probe.bundled@[i].mode {
                None => None,
                Some(m) => if m & 0o111u32 == 0 { Some(m | 0o755u32) } else { None },
            },
        )),
{
    let cs = probe.bundled@;
    assert(is_first_file(cs, i));
    let f = choose|f: int| is_first_file(cs, f);
    if f < i {
        assert(!cs[f].is_file);
    } else if i < f {
        assert(!cs[i].is_file);
    }
}

/// The platform identifier of the helper bundle for an operating system and
/// architecture (as `std::env::consts` names them); none for a platform
/// without a bundle.
pub open spec fn rid_spec(os: Seq<char>, arch: Seq<char>) -> Option<Seq<char>> {
    if os == "macos"@ && arch == "aarch64"@ {
        Some("osx-arm64"@)
    } else if os == "macos"@ && arch == "x86_64"@ {
        Some("osx-x64"@)
    } else if os == "windows"@ && arch == "x86_64"@ {
        Some("win-x64"@)
    } else if os == "windows"@ && arch == "aarch64"@ {
        Some("win-arm64"@)
    } else if os == "linux"@ && arch == "x86_64"@ {
        Some("linux-x64"@)
    } else if os == "linux"@ && arch == "aarch64"@ {
        Some("linux-arm64"@)
    } else {
        None
    }
}

/// The platform identifier of the helper bundle for `os` and `arch`.
pub fn current_rid(os: &str, arch: &str) -> (r: Option<&'static str>)
    ensures
        match r {
            Some(s) => rid_spec(os@, arch@) == Some(s@),
            None => rid_spec(os@, arch@) is None,
        },
{
    let o = chars_of(os);
    let a = chars_of(arch);
    let mac = chars_eq_str(&o, "macos");
    let win = chars_eq_str(&o, "windows");
    let linux = chars_eq_str(&o, "linux");
    let arm = chars_eq_str(&a, "aarch64");
    let x64 = chars_eq_str(&a, "x86_64");
    if mac && arm {
        Some("osx-arm64")
    } else if mac && x64 {
        Some("osx-x64")
    } else if win && x64 {
        Some("win-x64")
    } else if win && arm {
        Some("win-arm64")
    } else if linux && x64 {
        Some("linux-x64")
    } else if linux && arm {
        Some("linux-arm64")
    } else {
        None
    }
}

/// Owns the resolved path of the helper executable.
#[derive(Debug, Clone)]
pub struct Bridge {
    helper: String,
    new_mode: Option<u32>,
}

impl View for Bridge {
    type V = Seq<char>;

    closed spec fn view(&self) -> Seq<char> {
        self.helper@
    }
}

impl Bridge {
    /// The permission bits to set on the helper before running it, when it
    /// lacks execute bits.
    pub closed spec fn mode_fix(&self) -> Option<u32> {
        self.new_mode
    }

    /// Resolve the helper without a resource directory: the override, else
    /// the development-tree bundle.
    pub fn init(probe: &HelperProbe) -> (r: Result<Self, BridgeError>)
        ensures
            match locate_spec(*probe, false) {
                Ok((p, m)) => r matches Ok(b) && b@ == p && b.mode_fix() == m,
                Err(e) => r == Err::<Self, BridgeError>(BridgeError::NotFoundInTree(e)),
            },
    {
        match locate_helper(probe, false) {
            Ok(l) => Ok(Bridge { helper: l.path, new_mode: l.new_mode }),
            Err(e) => Err(BridgeError::NotFoundInTree(e)),
        }
    }

    /// Resolve the helper preferring a bundle inside the installed app's
    /// resource directory: the override, else the first bundled candidate
    /// that is a file, else the development-tree bundle.
    pub fn init_with_resource_dir(probe: &HelperProbe) -> (r: Result<Self, BridgeError>)
        ensures
            match locate_spec(*probe, true) {
                Ok((p, m)) => r matches Ok(b) && b@ == p && b.mode_fix() == m,
                Err(e) => r == Err::<Self, BridgeError>(BridgeError::NotFoundInstalled(e)),
            },
    {
        match locate_helper(probe, true) {
            Ok(l) => Ok(Bridge { helper: l.path, new_mode: l.new_mode }),
            Err(e) => Err(BridgeError::NotFoundInstalled(e)),
        }
    }

    /// A bridge for an already-produced document; no helper is needed.
    pub fn from_json(_json: &str) -> (r: Result<Self, BridgeError>)
        ensures
            r matches Ok(b) && b@ == "<test-fixture>"@ && b.mode_fix() is None,
    {
        Ok(Bridge { helper: "<test-fixture>".to_owned(), new_mode: None })
    }

    /// Path to the helper executable.
    pub fn helper_path(&self) -> (s: &str)
        ensures
            s@ == self@,
    {
        self.helper.as_str()
    }

    /// The permission bits to set on the helper before running it, if any.
    pub fn pending_mode(&self) -> (m: Option<u32>)
        ensures
            m == self.mode_fix(),
    {
        self.new_mode
    }

    /// The graph document in the helper's standard output: the output
    /// trimmed, or an error when nothing is left.
    pub fn document_from_output(&self, stdout: &str) -> (r: Result<String, BridgeError>)
        ensures
            trim(stdout@).len() == 0 ==> r == Err::<String, BridgeError>(BridgeError::EmptyOutput),
            trim(stdout@).len() > 0 ==> (r matches Ok(s) && s@ == trim(stdout@)),
    {
        let json = trim_str(stdout);
        if json.as_str().unicode_len() == 0 {
            Err(BridgeError::EmptyOutput)
        } else {
            Ok(json)
        }
    }
}

} // verus!

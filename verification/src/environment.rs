//! The system that an agent runs on, and the shell it uses.
use crate::text::same;
use vstd::prelude::*;
use vstd::string::*;

verus! {

/// The system and its shell.
#[derive(Clone, Debug)]
pub struct Environment {
    pub os_kind: String,
    pub os_arch: String,
    pub os_version: String,
    pub shell_name: String,
    pub shell_path: String,
}

/// How a system is called.
pub open spec fn os_label(os: Seq<char>) -> Seq<char> {
    if os == "macos"@ {
        "macOS"@
    } else if os == "windows"@ {
        "Windows"@
    } else if os == "linux"@ {
        "Linux"@
    } else {
        os
    }
}

/// How a system is called.
pub fn label_os(os: &str) -> (res: String)
    ensures
        res@ == os_label(os@),
{
    if same(os, "macos") {
        "macOS".to_owned()
    } else if same(os, "windows") {
        "Windows".to_owned()
    } else if same(os, "linux") {
        "Linux".to_owned()
    } else {
        os.to_owned()
    }
}

/// The shell of a Windows system, given where the newer and the older PowerShell
/// were found: the newer one is preferred.
pub fn find_windows_shell(pwsh: Option<String>, powershell: Option<String>) -> (res: (
    String,
    String,
))
    ensures
        match (pwsh, powershell) {
            (Some(path), _) => res.0@ == "PowerShell 7"@ && res.1 == path,
            (None, Some(path)) => res.0@ == "Windows PowerShell"@ && res.1 == path,
            (None, None) => res.0@ == "Windows PowerShell"@ && res.1@ == "powershell.exe"@,
        },
{
    if let Some(path) = pwsh {
        return ("PowerShell 7".to_owned(), path);
    }
    if let Some(path) = powershell {
        return ("Windows PowerShell".to_owned(), path);
    }
    ("Windows PowerShell".to_owned(), "powershell.exe".to_owned())
}

/// The first of `found` that is there.
pub open spec fn first_found(found: Seq<bool>, i: int) -> Option<int>
    decreases found.len() - i,
{
    if i < 0 || i >= found.len() {
        None
    } else if found[i] {
        Some(i)
    } else {
        first_found(found, i + 1)
    }
}

/// The shell of another system: bash at the first of these places where it is,
/// else `sh`.
pub fn find_posix_shell(candidates: &[String], found: &[bool]) -> (res: (String, String))
    requires
        candidates@.len() == found@.len(),
    ensures
        match first_found(found@, 0) {
            Some(i) => res.0@ == "bash"@ && res.1 == candidates@[i],
            None => res.0@ == "sh"@ && res.1@ == "/bin/sh"@,
        },
{
    let mut i: usize = 0;
    while i < found.len()
        invariant
            i <= found@.len(),
            candidates@.len() == found@.len(),
            first_found(found@, 0) == first_found(found@, i as int),
        decreases found@.len() - i,
    {
        if found[i] {
            return ("bash".to_owned(), candidates[i].clone());
        }
        i += 1;
    }
    ("sh".to_owned(), "/bin/sh".to_owned())
}

/// The places where bash is looked for.
pub fn bash_candidates() -> (res: Vec<String>)
    ensures
        crate::text::views(res@) == seq!["/bin/bash"@, "/usr/bin/bash"@, "/usr/local/bin/bash"@],
{
    let res: Vec<String> = vec![
        "/bin/bash".to_owned(),
        "/usr/bin/bash".to_owned(),
        "/usr/local/bin/bash".to_owned(),
    ];
    proof {
        assert(crate::text::views(res@) =~= seq![
            "/bin/bash"@,
            "/usr/bin/bash"@,
            "/usr/local/bin/bash"@,
        ]);
    }
    res
}

impl Environment {
    /// The environment of a system, with the shell that was found on it.
    pub fn detect(os: &str, arch: String, version: Option<String>, shell: (String, String)) -> (res:
        Environment)
        ensures
            res.os_kind@ == os_label(os@),
            res.os_arch == arch,
            match version {
                Some(v) => res.os_version == v,
                None => res.os_version@.len() == 0,
            },
            res.shell_name == shell.0,
            res.shell_path == shell.1,
    {
        let os_version: String = match version {
            Some(v) => v,
            None => String::new(),
        };
        Environment {
            os_kind: label_os(os),
            os_arch: arch,
            os_version,
            shell_name: shell.0,
            shell_path: shell.1,
        }
    }
}

/// The shell is the first candidate that is there; without one it is the plain one. On
/// Windows the newer one counts before the older.
pub proof fn law_which_shell_is_found(
    candidates: &[String],
    found: &[bool],
    posix: (String, String),
    pwsh: Option<String>,
    powershell: Option<String>,
    windows: (String, String),
    i: int,
)
    requires
        call_ensures(find_posix_shell, (candidates, found), posix),
        call_ensures(find_windows_shell, (pwsh, powershell), windows),
        candidates@.len() == found@.len(),
    ensures
        0 <= i < found@.len() && found@[i] && (forall|k: int|
            0 <= k < i ==> !#[trigger] found@[k]) ==> posix.0@ == "bash"@ && posix.1
            == candidates@[i],
        (forall|k: int| 0 <= k < found@.len() ==> !#[trigger] found@[k]) ==> posix.0@ == "sh"@
            && posix.1@ == "/bin/sh"@,
        pwsh matches Some(path) ==> windows.1 == path && windows.0@ == "PowerShell 7"@,
        pwsh is None && powershell is Some ==> windows.1 == powershell->0 && windows.0@
            == "Windows PowerShell"@,
{
    lemma_first_found(found@, 0);
}

proof fn lemma_first_found(found: Seq<bool>, i: int)
    requires
        0 <= i,
    ensures
        match first_found(found, i) {
            Some(k) => i <= k < found.len() && found[k] && forall|j: int|
                i <= j < k ==> !#[trigger] found[j],
            None => forall|j: int| i <= j < found.len() ==> !#[trigger] found[j],
        },
    decreases found.len() - i,
{
    if i < found.len() && !found[i] {
        lemma_first_found(found, i + 1);
    }
}

/// The three systems are called by their names, and any other as it calls itself.
pub proof fn law_how_systems_are_called(os: &str, res: String)
    requires
        call_ensures(label_os, (os,), res),
    ensures
        os@ == "macos"@ ==> res@ == "macOS"@,
        os@ == "windows"@ ==> res@ == "Windows"@,
        os@ == "linux"@ ==> res@ == "Linux"@,
        os@ != "macos"@ && os@ != "windows"@ && os@ != "linux"@ ==> res@ == os@,
{
    reveal_strlit("macos");
    reveal_strlit("windows");
    reveal_strlit("linux");
    assert("macos"@[0] == 'm' && "windows"@[0] == 'w' && "linux"@[0] == 'l');
}

/// What is found out about a machine is told as it was found.
pub proof fn law_what_is_told_of_a_machine(
    os: &str,
    arch: String,
    version: Option<String>,
    shell: (String, String),
    res: Environment,
)
    requires
        call_ensures(Environment::detect, (os, arch, version, shell), res),
    ensures
        res.os_arch == arch && res.shell_name == shell.0 && res.shell_path == shell.1,
        version matches Some(v) ==> res.os_version == v,
        version is None ==> res.os_version@.len() == 0,
        os@ == "macos"@ ==> res.os_kind@ == "macOS"@,
        os@ == "windows"@ ==> res.os_kind@ == "Windows"@,
        os@ == "linux"@ ==> res.os_kind@ == "Linux"@,
        os@ != "macos"@ && os@ != "windows"@ && os@ != "linux"@ ==> res.os_kind@ == os@,
{
    reveal_strlit("macos");
    reveal_strlit("windows");
    reveal_strlit("linux");
    assert("macos"@.len() != "windows"@.len() && "linux"@.len() != "windows"@.len());
    assert("macos"@[0] == 'm' && "linux"@[0] == 'l');
}

} // verus!

//! What depends on the platform the viewer runs on: where its PDFium build
//! lives and how a document is sent to the printer.

use vstd::prelude::*;

verus! {

broadcast use vstd::string::group_string_axioms;

pub enum Os {
    Windows,
    MacOs,
    Linux,
    Android,
    Other,
}

pub enum Arch {
    X86_64,
    Aarch64,
    Other,
}

/// The platform the viewer was built for.
pub struct Target {
    pub os: Os,
    pub arch: Arch,
}

/// The sub-directory of `vendor/pdfium/` that holds the PDFium build for a
/// platform.
pub open spec fn platform_dir_spec(t: Target) -> Seq<char> {
    match (t.os, t.arch) {
        (Os::Windows, Arch::X86_64) => "win-x64"@,
        (Os::MacOs, Arch::Aarch64) => "mac-arm64"@,
        (Os::MacOs, Arch::X86_64) => "mac-x64"@,
        (Os::Linux, Arch::X86_64) => "linux-x64"@,
        (Os::Android, Arch::Aarch64) => "android-arm64"@,
        _ => "unknown"@,
    }
}

/// The sub-directory of `vendor/pdfium/` for platform `t`.
pub fn platform_dir_name(t: &Target) -> (r: &'static str)
    ensures
        r@ == platform_dir_spec(*t),
{
    match (&t.os, &t.arch) {
        (Os::Windows, Arch::X86_64) => "win-x64",
        (Os::MacOs, Arch::Aarch64) => "mac-arm64",
        (Os::MacOs, Arch::X86_64) => "mac-x64",
        (Os::Linux, Arch::X86_64) => "linux-x64",
        (Os::Android, Arch::Aarch64) => "android-arm64",
        _ => "unknown",
    }
}

/// A place where the PDFium library may be found.
#[derive(Clone, Copy, PartialEq, Eq, Structural, Debug)]
pub enum LibDirCandidate {
    /// The directory that `PDF_SHARD_PDFIUM_DIR` names.
    EnvDir,
    /// `vendor/pdfium/<platform>/` under the `n`-th directory on the way up
    /// from the current directory (0: the current directory itself).
    UnderAncestor(usize),
    /// `vendor/pdfium/<platform>/` in the executable's directory.
    BesideExe,
}

/// The order in which the places for the PDFium library are tried: the
/// directory that the environment names (where it names one), then each
/// directory from the current one up to the root (`ancestors` of them),
/// then the executable's directory (where it has one).
pub open spec fn lib_dir_order(has_env: bool, ancestors: nat, has_exe_dir: bool) -> Seq<LibDirCandidate> {
    (if has_env {
        seq![LibDirCandidate::EnvDir]
    } else {
        Seq::empty()
    }) + Seq::new(ancestors, |i: int| LibDirCandidate::UnderAncestor(i as usize)) + (if has_exe_dir {
        seq![LibDirCandidate::BesideExe]
    } else {
        Seq::empty()
    })
}

/// The places to look for the PDFium library, in the order tried (see
/// `lib_dir_order`); the first that is a directory is the one used.
pub fn lib_dir_candidates(has_env: bool, ancestors: usize, has_exe_dir: bool) -> (r: Vec<LibDirCandidate>)
    ensures
        r@ == lib_dir_order(has_env, ancestors as nat, has_exe_dir),
{
    let mut r: Vec<LibDirCandidate> = Vec::new();
    if has_env {
        r.push(LibDirCandidate::EnvDir);
    }
    let ghost start = r@;
    let mut i: usize = 0;
    while i < ancestors
        invariant
            i <= ancestors,
            r@ == start + Seq::new(i as nat, |j: int| LibDirCandidate::UnderAncestor(j as usize)),
        decreases ancestors - i,
    {
        r.push(LibDirCandidate::UnderAncestor(i));
        i += 1;
        assert(r@ =~= start + Seq::new(i as nat, |j: int| LibDirCandidate::UnderAncestor(j as usize)));
    }
    if has_exe_dir {
        r.push(LibDirCandidate::BesideExe);
    }
    assert(r@ =~= lib_dir_order(has_env, ancestors as nat, has_exe_dir));
    r
}

/// The position of the first place that exists, given for each place in
/// the order tried whether it is a directory; nothing where none is.
pub fn first_existing(exists: &Vec<bool>) -> (r: Option<usize>)
    ensures
        match r {
            Some(i) => i < exists@.len() && exists@[i as int] && forall|j: int| 0 <= j < i ==> !exists@[j],
            None => forall|j: int| 0 <= j < exists@.len() ==> !exists@[j],
        },
{
    let mut i: usize = 0;
    while i < exists.len()
        invariant
            i <= exists@.len(),
            forall|j: int| 0 <= j < i ==> !exists@[j],
        decreases exists@.len() - i,
    {
        if exists[i] {
            return Some(i);
        }
        i += 1;
    }
    None
}

/// Appends `c` to `s` with `String::push`, which appends one character at
/// the end of the string. Claims exactly that.
#[verifier::external_body]
pub(crate) fn push_char(s: &mut String, c: char)
    ensures
        final(s)@ == old(s)@.push(c),
{
    s.push(c);
}

/// `s` with every `c` replaced by `by`.
pub open spec fn replace_char(s: Seq<char>, c: char, by: Seq<char>) -> Seq<char>
    decreases s.len(),
{
    if s.len() == 0 {
        Seq::empty()
    } else {
        replace_char(s.drop_last(), c, by) + if s.last() == c {
            by
        } else {
            seq![s.last()]
        }
    }
}

fn replace_char_exec(s: &str, c: char, by: &str) -> (r: String)
    ensures
        r@ == replace_char(s@, c, by@),
{
    let v = crate::text::str_chars(s);
    let mut r = String::new();
    let mut i: usize = 0;
    while i < v.len()
        invariant
            v@ == s@,
            i <= v@.len(),
            r@ == replace_char(v@.take(i as int), c, by@),
        decreases v@.len() - i,
    {
        assert(v@.take(i + 1).drop_last() =~= v@.take(i as int));
        if v[i] == c {
            r.append(by);
        } else {
            push_char(&mut r, v[i]);
        }
        i += 1;
    }
    assert(v@.take(v@.len() as int) =~= v@);
    r
}

/// A program to run with its arguments, and the message to report when it
/// runs but does not succeed.
pub struct PrintCommand {
    pub program: String,
    pub args: Vec<String>,
    pub failure: String,
}

/// The printing message for a program that ran and failed.
pub open spec fn print_failed_msg() -> Seq<char> {
    "no se pudo iniciar la impresión"@
}

/// How to send the file at `path` to the printer on `os`: on Windows,
/// PowerShell's `Start-Process -Verb Print` (with `'` doubled inside the
/// quoted path); on macOS, the Finder through `osascript` (with `"` escaped
/// by a backslash); on Linux, `lp` on the default printer (no dialog first);
/// on Android and elsewhere, an error saying that printing is not available.
pub open spec fn print_plan(os: Os, path: Seq<char>) -> Result<(Seq<char>, Seq<Seq<char>>, Seq<char>), Seq<char>> {
    match os {
        Os::Windows => Ok(
            (
                "powershell"@,
                seq![
                    "-NoProfile"@,
                    "-WindowStyle"@,
                    "Hidden"@,
                    "-Command"@,
                    "Start-Process -FilePath '"@ + replace_char(path, '\'', "''"@) + "' -Verb Print"@,
                ],
                print_failed_msg(),
            ),
        ),
        Os::MacOs => Ok(
            (
                "osascript"@,
                seq![
                    "-e"@,
                    "tell application \"Finder\" to print (POSIX file \""@ + replace_char(
                        path,
                        '"',
                        "\\\""@,
                    ) + "\")"@,
                ],
                print_failed_msg(),
            ),
        ),
        Os::Linux => Ok(
            (
                "lp"@,
                seq![path],
                "no se pudo enviar a la impresora predeterminada (¿hay CUPS/lp instalado?)"@,
            ),
        ),
        Os::Android => Err("la impresión en Android llega en M10 (Android Print Framework)"@),
        Os::Other => Err("impresión no soportada en esta plataforma"@),
    }
}

/// The value of a print command.
pub open spec fn command_view(c: PrintCommand) -> (Seq<char>, Seq<Seq<char>>, Seq<char>) {
    (c.program@, c.args@.map_values(|a: String| a@), c.failure@)
}

/// How to print the file at `path` on `os` (see `print_plan`).
pub fn print_native(os: &Os, path: &str) -> (r: Result<PrintCommand, String>)
    ensures
        match (r, print_plan(*os, path@)) {
            (Ok(c), Ok(p)) => command_view(c) == p,
            (Err(m), Err(p)) => m@ == p,
            _ => false,
        },
{
    match os {
        Os::Windows => {
            let mut script = String::from_str("Start-Process -FilePath '");
            let escaped = replace_char_exec(path, '\'', "''");
            script.append(escaped.as_str());
            script.append("' -Verb Print");
            let mut args: Vec<String> = Vec::new();
            args.push(String::from_str("-NoProfile"));
            args.push(String::from_str("-WindowStyle"));
            args.push(String::from_str("Hidden"));
            args.push(String::from_str("-Command"));
            args.push(script);
            let c = PrintCommand {
                program: String::from_str("powershell"),
                args,
                failure: String::from_str("no se pudo iniciar la impresión"),
            };
            assert(c.args@.map_values(|a: String| a@) =~= print_plan(*os, path@)->Ok_0.1);
            Ok(c)
        },
        Os::MacOs => {
            let mut script = String::from_str("tell application \"Finder\" to print (POSIX file \"");
            let escaped = replace_char_exec(path, '"', "\\\"");
            script.append(escaped.as_str());
            script.append("\")");
            let mut args: Vec<String> = Vec::new();
            args.push(String::from_str("-e"));
            args.push(script);
            let c = PrintCommand {
                program: String::from_str("osascript"),
                args,
                failure: String::from_str("no se pudo iniciar la impresión"),
            };
            assert(c.args@.map_values(|a: String| a@) =~= print_plan(*os, path@)->Ok_0.1);
            Ok(c)
        },
        Os::Linux => {
            let mut args: Vec<String> = Vec::new();
            args.push(String::from_str(path));
            let c = PrintCommand {
                program: String::from_str("lp"),
                args,
                failure: String::from_str(
                    "no se pudo enviar a la impresora predeterminada (¿hay CUPS/lp instalado?)",
                ),
            };
            assert(c.args@.map_values(|a: String| a@) =~= print_plan(*os, path@)->Ok_0.1);
            Ok(c)
        },
        Os::Android => Err(
            String::from_str("la impresión en Android llega en M10 (Android Print Framework)"),
        ),
        Os::Other => Err(String::from_str("impresión no soportada en esta plataforma")),
    }
}

/// What printing reports once the command has been run: a failure to start
/// it is reported with its message; a run that did not succeed, with the
/// command's failure message.
pub fn print_outcome(cmd: &PrintCommand, ran: Result<bool, String>) -> (r: Result<(), String>)
    ensures
        match ran {
            Err(m) => r matches Err(e) && e@ == m@,
            Ok(true) => r is Ok,
            Ok(false) => r matches Err(e) && e@ == cmd.failure@,
        },
{
    match ran {
        Err(m) => Err(m),
        Ok(success) => if success {
            Ok(())
        } else {
            Err(cmd.failure.clone())
        },
    }
}

/// A path without the character `c` is left as it is by escaping `c`.
pub proof fn lemma_replace_absent(s: Seq<char>, c: char, by: Seq<char>)
    requires
        !s.contains(c),
    ensures
        replace_char(s, c, by) == s,
    decreases s.len(),
{
    if s.len() > 0 {
        assert(!s.drop_last().contains(c)) by {
            if s.drop_last().contains(c) {
                let i = choose|i: int| 0 <= i < s.len() - 1 && s.drop_last()[i] == c;
                assert(s[i] == c);
            }
        }
        lemma_replace_absent(s.drop_last(), c, by);
        assert(s.last() != c) by {
            assert(s[s.len() - 1] == s.last());
        }
        assert(s.drop_last() + seq![s.last()] =~= s);
    }
}

/// On Linux the file goes to `lp` as its only argument, exactly as given,
/// whatever characters (spaces, quotes) its path holds.
pub proof fn law_print_linux_passes_path(path: Seq<char>)
    ensures
        print_plan(Os::Linux, path) is Ok,
        print_plan(Os::Linux, path)->Ok_0.0 == "lp"@,
        print_plan(Os::Linux, path)->Ok_0.1 == seq![path],
{
}

/// On Windows and macOS the path stands in the script as it is when it
/// holds no character that the script's quoting would have to escape.
pub proof fn law_print_script_holds_path(path: Seq<char>)
    ensures
        !path.contains('\'') ==> print_plan(Os::Windows, path)->Ok_0.1.last() == "Start-Process -FilePath '"@
            + path + "' -Verb Print"@,
        !path.contains('"') ==> print_plan(Os::MacOs, path)->Ok_0.1.last()
            == "tell application \"Finder\" to print (POSIX file \""@ + path + "\")"@,
{
    if !path.contains('\'') {
        lemma_replace_absent(path, '\'', "''"@);
    }
    if !path.contains('"') {
        lemma_replace_absent(path, '"', "\\\""@);
    }
}

} // verus!

//! How the Zed editor finds the language server: which program it starts, and which it downloads.
use crate::text::{eq, str_starts_with, strs};
use crate::types::opt;
use vstd::prelude::*;
use vstd::string::*;

verus! {

/// The operating systems.
#[derive(Clone, Copy, Debug, PartialEq, Eq, Structural)]
pub enum Os {
    Linux,
    Mac,
    Windows,
}

/// The processor architectures.
#[derive(Clone, Copy, Debug, PartialEq, Eq, Structural)]
pub enum Architecture {
    Aarch64,
    X86,
    X8664,
}

/// The name of the program among the files of a release; `None` where there is none for the
/// platform.
pub open spec fn asset_for(os: Os, arch: Architecture) -> Option<Seq<char>> {
    match (os, arch) {
        (Os::Linux, Architecture::X8664) => Some("konform-x86_64-unknown-linux-gnu"@),
        (Os::Linux, Architecture::Aarch64) => Some("konform-aarch64-unknown-linux-gnu"@),
        (Os::Mac, Architecture::X8664) => Some("konform-x86_64-apple-darwin"@),
        (Os::Mac, Architecture::Aarch64) => Some("konform-aarch64-apple-darwin"@),
        (Os::Windows, Architecture::X8664) => Some("konform-x86_64-pc-windows-msvc.exe"@),
        _ => None,
    }
}

/// The name of the program among the files of a release.
pub fn asset_name(os: Os, arch: Architecture) -> (r: Option<String>)
    ensures
        opt(r) == asset_for(os, arch),
{
    match (os, arch) {
        (Os::Linux, Architecture::X8664) => Some("konform-x86_64-unknown-linux-gnu".to_owned()),
        (Os::Linux, Architecture::Aarch64) => Some("konform-aarch64-unknown-linux-gnu".to_owned()),
        (Os::Mac, Architecture::X8664) => Some("konform-x86_64-apple-darwin".to_owned()),
        (Os::Mac, Architecture::Aarch64) => Some("konform-aarch64-apple-darwin".to_owned()),
        (Os::Windows, Architecture::X8664) => Some("konform-x86_64-pc-windows-msvc.exe".to_owned()),
        _ => None,
    }
}

/// A file of a release.
pub struct Asset {
    pub name: String,
    pub url: String,
}

/// A release.
pub struct Release {
    pub version: String,
    pub assets: Vec<Asset>,
}

/// The place of the first file with a name.
pub open spec fn asset_at(assets: Seq<Asset>, name: Seq<char>) -> Option<int>
    decreases assets.len(),
{
    if assets.len() == 0 {
        None
    } else {
        match asset_at(assets.drop_last(), name) {
            Some(i) => Some(i),
            None => if assets.last().name@ == name {
                Some(assets.len() - 1)
            } else {
                None
            },
        }
    }
}

fn find_asset(assets: &Vec<Asset>, name: &str) -> (r: Option<usize>)
    ensures
        match r {
            Some(i) => i < assets@.len() && asset_at(assets@, name@) == Some(i as int),
            None => asset_at(assets@, name@) is None,
        },
{
    let mut i: usize = 0;
    assert(assets@.take(0) =~= Seq::empty());
    while i < assets.len()
        invariant
            i <= assets@.len(),
            asset_at(assets@.take(i as int), name@) is None,
        decreases assets@.len() - i,
    {
        assert(assets@.take(i + 1).drop_last() =~= assets@.take(i as int));
        assert(assets@.take(i + 1).last() == assets@[i as int]);
        if eq(assets[i].name.as_str(), name) {
            proof {
                lemma_asset_stays(assets@, name@, i + 1);
            }
            return Some(i);
        }
        i += 1;
    }
    assert(assets@.take(assets@.len() as int) =~= assets@);
    None
}

proof fn lemma_asset_stays(assets: Seq<Asset>, name: Seq<char>, n: int)
    requires
        0 <= n <= assets.len(),
        asset_at(assets.take(n), name) is Some,
    ensures
        asset_at(assets, name) == asset_at(assets.take(n), name),
    decreases assets.len() - n,
{
    if n == assets.len() {
        assert(assets.take(n) =~= assets);
    } else {
        assert(assets.take(n + 1).drop_last() =~= assets.take(n));
        lemma_asset_stays(assets, name, n + 1);
    }
}

/// What to do about the program of the language server.
pub enum Lookup {
    /// It is at this path.
    Found(String),
    /// The latest release must be asked for.
    AskRelease,
}

/// A program of a release.
pub struct Download {
    pub asset_name: String,
    pub url: String,
    /// The directory for the release.
    pub version_dir: String,
    /// Where the program is or is to be put.
    pub binary_path: String,
}

/// The directory for a release.
pub open spec fn version_dir_of(version: Seq<char>) -> Seq<char> {
    "konform-"@ + version
}

/// Where the program of a release is or is to be put.
pub open spec fn binary_path_of(version: Seq<char>, os: Os) -> Seq<char> {
    version_dir_of(version) + "/"@ + if os == Os::Windows {
        "konform.exe"@
    } else {
        "konform"@
    }
}

/// What is said where there is no program for the platform.
pub const NO_BINARY: &'static str =
    "konform has no prebuilt binary for this platform. Install it with `pip install konform` or `pipx install konform` and it will be picked up from $PATH.";

/// The extension: it remembers where it put the program.
pub struct KonformExtension {
    pub cached_binary_path: Option<String>,
}

impl KonformExtension {
    /// An extension that has downloaded nothing.
    pub fn new() -> (r: KonformExtension)
        ensures
            r.cached_binary_path is None,
    {
        KonformExtension { cached_binary_path: None }
    }

    /// Looks for the program: first on the search path, then where it was put before.
    /// `cached_exists` tells whether it is still there.
    pub fn look(&self, on_path: Option<String>, cached_exists: bool) -> (r: Lookup)
        ensures
            match r {
                Lookup::Found(path) => match on_path {
                    Some(p) => path@ == p@,
                    None => cached_exists && self.cached_binary_path is Some && path@
                        == self.cached_binary_path->0@,
                },
                Lookup::AskRelease => on_path is None && (!cached_exists
                    || self.cached_binary_path is None),
            },
    {
        match on_path {
            Some(path) => return Lookup::Found(path),
            None => {},
        }
        match &self.cached_binary_path {
            Some(path) => if cached_exists {
                Lookup::Found(path.clone())
            } else {
                Lookup::AskRelease
            },
            None => Lookup::AskRelease,
        }
    }

    /// Remembers where the program was put.
    pub fn remember(&mut self, path: &str)
        ensures
            opt(final(self).cached_binary_path) == Some(path@),
    {
        self.cached_binary_path = Some(path.to_owned());
    }
}

/// The program of a release for a platform, or why there is none.
pub fn language_server_binary_path(os: Os, arch: Architecture, release: &Release) -> (r: Result<
    Download,
    String,
>)
    ensures
        match r {
            Ok(d) => {
                &&& asset_for(os, arch) == Some(d.asset_name@)
                &&& asset_at(release.assets@, d.asset_name@) is Some
                &&& d.url@ == release.assets@[asset_at(release.assets@, d.asset_name@)->0].url@
                &&& d.version_dir@ == version_dir_of(release.version@)
                &&& d.binary_path@ == binary_path_of(release.version@, os)
            },
            Err(message) => match asset_for(os, arch) {
                None => message@ == NO_BINARY@,
                Some(name) => asset_at(release.assets@, name) is None && message@
                    == "no asset named "@ + name + " found in konform release "@ + release.version@,
            },
        },
{
    let name = match asset_name(os, arch) {
        Some(name) => name,
        None => return Err(NO_BINARY.to_owned()),
    };
    let i: usize = match find_asset(&release.assets, name.as_str()) {
        Some(i) => i,
        None => {
            let mut message = "no asset named ".to_owned();
            message.append(name.as_str());
            message.append(" found in konform release ");
            message.append(release.version.as_str());
            return Err(message);
        },
    };
    let mut version_dir = "konform-".to_owned();
    version_dir.append(release.version.as_str());
    let mut binary_path = version_dir.clone();
    binary_path.append("/");
    if os == Os::Windows {
        binary_path.append("konform.exe");
    } else {
        binary_path.append("konform");
    }
    Ok(
        Download {
            asset_name: name,
            url: release.assets[i].url.clone(),
            version_dir,
            binary_path,
        },
    )
}

/// Whether a directory holds the program of another release.
pub fn is_stale(name: &str, version_dir: &str) -> (r: bool)
    ensures
        r == ("konform-"@.is_prefix_of(name@) && name@ != version_dir@),
{
    str_starts_with(name, "konform-") && !eq(name, version_dir)
}

/// The program to start, with its arguments.
pub struct ServerCommand {
    pub command: String,
    pub args: Vec<String>,
}

/// What the settings say about the program.
pub struct BinarySettings {
    pub path: Option<String>,
    pub arguments: Option<Vec<String>>,
}

/// The arguments of the program unless the settings say otherwise.
fn server_args() -> (r: Vec<String>)
    ensures
        strs(r@) == seq!["server"@],
{
    let mut args: Vec<String> = Vec::new();
    args.push("server".to_owned());
    assert(strs(args@) =~= seq!["server"@]);
    args
}

/// The command that the settings name; `None` where they name no program.
pub fn command_in_settings(settings: Option<BinarySettings>) -> (r: Option<ServerCommand>)
    ensures
        match r {
            Some(c) => {
                &&& settings is Some && settings->0.path is Some
                &&& c.command@ == settings->0.path->0@
                &&& strs(c.args@) == match settings->0.arguments {
                    Some(args) => strs(args@),
                    None => seq!["server"@],
                }
            },
            None => settings is None || settings->0.path is None,
        },
{
    match settings {
        Some(binary) => match binary.path {
            Some(command) => {
                let args = match binary.arguments {
                    Some(args) => args,
                    None => server_args(),
                };
                Some(ServerCommand { command, args })
            },
            None => None,
        },
        None => None,
    }
}

/// The command that starts the program at a path.
pub fn command_for(path: String) -> (r: ServerCommand)
    ensures
        r.command@ == path@,
        strs(r.args@) == seq!["server"@],
{
    ServerCommand { command: path, args: server_args() }
}

/// The directory of every other release is taken for that of another release.
pub proof fn law_other_releases_are_stale(version: Seq<char>, other: Seq<char>)
    requires
        version != other,
    ensures
        "konform-"@.is_prefix_of(version_dir_of(other)),
        version_dir_of(other) != version_dir_of(version),
{
    let n = "konform-"@.len() as int;
    assert(version_dir_of(other).take(n) =~= "konform-"@);
    assert(version_dir_of(other).skip(n) =~= other);
    assert(version_dir_of(version).skip(n) =~= version);
}

/// Each of five platforms has a program, and it is named after the platform.
pub proof fn law_programs_are_named_after_platforms()
    ensures
        asset_for(Os::Linux, Architecture::X8664) == Some("konform-x86_64-unknown-linux-gnu"@),
        asset_for(Os::Linux, Architecture::Aarch64) == Some("konform-aarch64-unknown-linux-gnu"@),
        asset_for(Os::Mac, Architecture::X8664) == Some("konform-x86_64-apple-darwin"@),
        asset_for(Os::Mac, Architecture::Aarch64) == Some("konform-aarch64-apple-darwin"@),
        asset_for(Os::Windows, Architecture::X8664) == Some("konform-x86_64-pc-windows-msvc.exe"@),
        asset_for(Os::Windows, Architecture::Aarch64) is None,
{
}

/// The first file with a name is the one that counts.
pub proof fn law_the_first_file_counts(assets: Seq<Asset>, name: Seq<char>)
    ensures
        match asset_at(assets, name) {
            Some(i) => 0 <= i < assets.len() && assets[i].name@ == name && forall|j: int|
                0 <= j < i ==> (#[trigger] assets[j]).name@ != name,
            None => forall|j: int| 0 <= j < assets.len() ==> (#[trigger] assets[j]).name@ != name,
        },
    decreases assets.len(),
{
    if assets.len() > 0 {
        let rest = assets.drop_last();
        law_the_first_file_counts(rest, name);
        match asset_at(rest, name) {
            Some(i) => {
                assert(rest[i] == assets[i]);
                assert forall|j: int| 0 <= j < i implies (#[trigger] assets[j]).name@ != name by {
                    assert(rest[j] == assets[j]);
                }
            },
            None => {
                assert forall|j: int| 0 <= j < rest.len() implies (#[trigger] assets[j]).name@
                    != name by {
                    assert(rest[j] == assets[j]);
                }
            },
        }
    }
}

/// The program lies in the directory of its release.
pub proof fn law_programs_lie_with_their_release(version: Seq<char>, os: Os)
    ensures
        os == Os::Windows ==> binary_path_of(version, os) == "konform-"@ + version + "/"@
            + "konform.exe"@,
        os != Os::Windows ==> binary_path_of(version, os) == "konform-"@ + version + "/"@
            + "konform"@,
{
}

} // verus!

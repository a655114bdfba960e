//! Self-update decisions: which release to take, whether it is newer than
//! the running build, which asset to download, and the script that swaps
//! the module file.
use vstd::prelude::*;
use crate::loadouts::join_lines;
use crate::text::{
    append_decimal, append_str, decimal, lex_lt, str_eq, str_lt, trim_start_char, trim_start_spec,
};
use vstd::string::*;

verus! {

/// A downloadable file of a release.
#[derive(Debug)]
pub struct GithubAsset {
    pub name: String,
    pub browser_download_url: String,
}

/// A published release.
#[derive(Debug)]
pub struct GithubRelease {
    pub tag_name: String,
    pub assets: Vec<GithubAsset>,
    pub prerelease: bool,
}

/// The name of the module file among a release's assets.
pub open spec fn dll_asset_name() -> Seq<char> {
    "orexis.dll"@
}

/// `release` ships the module file.
pub open spec fn ships_dll(release: GithubRelease) -> bool {
    exists|k: int|
        0 <= k < release.assets@.len() && (#[trigger] release.assets@[k]).name@ == dll_asset_name()
}

/// The position of the first asset of `release` named like the module file.
pub fn find_dll_asset(release: &GithubRelease) -> (r: Option<usize>)
    ensures
        match r {
            Some(k) => k < release.assets@.len() && release.assets@[k as int].name@
                == dll_asset_name() && forall|j: int|
                0 <= j < k ==> (#[trigger] release.assets@[j]).name@ != dll_asset_name(),
            None => !ships_dll(*release),
        },
{
    let mut k: usize = 0;
    while k < release.assets.len()
        invariant
            k <= release.assets@.len(),
            forall|j: int|
                0 <= j < k ==> (#[trigger] release.assets@[j]).name@ != dll_asset_name(),
        decreases release.assets@.len() - k,
    {
        if str_eq(release.assets[k].name.as_str(), "orexis.dll") {
            return Some(k);
        }
        k = k + 1;
    }
    None
}

/// The position of the newest listed release that ships the module file:
/// the first one in the list.
pub fn select_release(releases: &Vec<GithubRelease>) -> (r: Option<usize>)
    ensures
        match r {
            Some(i) => i < releases@.len() && ships_dll(releases@[i as int]) && forall|j: int|
                0 <= j < i ==> !ships_dll(#[trigger] releases@[j]),
            None => forall|j: int| 0 <= j < releases@.len() ==> !ships_dll(#[trigger] releases@[j]),
        },
{
    let mut i: usize = 0;
    while i < releases.len()
        invariant
            i <= releases@.len(),
            forall|j: int| 0 <= j < i ==> !ships_dll(#[trigger] releases@[j]),
        decreases releases@.len() - i,
    {
        if find_dll_asset(&releases[i]).is_some() {
            return Some(i);
        }
        i = i + 1;
    }
    None
}

#[verifier::external_type_specification]
#[verifier::external_body]
pub struct ExSemverVersion(semver::Version);

#[verifier::external_type_specification]
#[verifier::external_body]
pub struct ExSemverError(semver::Error);

/// A version string that semver accepted, with what semver made of it.
pub struct ParsedVersion {
    text: String,
    version: semver::Version,
}

impl ParsedVersion {
    /// The text this version was read from.
    pub closed spec fn source(&self) -> Seq<char> {
        self.text@
    }
}

/// Whether `semver::Version::parse` accepts `text`.
pub uninterp spec fn semver_accepts(text: Seq<char>) -> bool;

/// Whether semver's ordering of `Version` puts the parse of `latest` after
/// the parse of `current` (defined by the crate; meaningful when both parse).
pub uninterp spec fn semver_newer(latest: Seq<char>, current: Seq<char>) -> bool;

/// Reads `text` with `semver::Version::parse`. Claimed: it succeeds exactly
/// when semver accepts the text, and the value keeps the text it came from.
/// What semver makes of the text is left to the crate.
#[verifier::external_body]
fn parse_version(text: &str) -> (r: Result<ParsedVersion, semver::Error>)
    ensures
        r is Ok <==> semver_accepts(text@),
        r matches Ok(p) ==> p.source() == text@,
{
    semver::Version::parse(text).map(|version| ParsedVersion { text: text.to_string(), version })
}

/// Compares two parsed versions with semver's `>` on `Version`. Claimed:
/// the answer depends on the two source texts alone (each value holds
/// semver's parse of its source, as `parse_version` builds it).
#[verifier::external_body]
fn version_gt(latest: &ParsedVersion, current: &ParsedVersion) -> (r: bool)
    ensures
        r == semver_newer(latest.source(), current.source()),
{
    latest.version > current.version
}

/// The update decision given semver's comparison (`None` when either tag
/// is not a semver version): semver's answer, else whether the latest tag
/// sorts after the current one.
pub open spec fn update_wanted(semver_verdict: Option<bool>, latest: Seq<char>, current: Seq<char>) -> bool {
    match semver_verdict {
        Some(newer) => newer,
        None => lex_lt(current, latest),
    }
}

/// Decides on an update from semver's comparison of the two tags (`None`
/// when either is not a semver version) and the tags themselves.
pub fn decide_update(semver_verdict: Option<bool>, latest: &str, current: &str) -> (r: bool)
    ensures
        r == update_wanted(semver_verdict, latest@, current@),
{
    match semver_verdict {
        Some(newer) => newer,
        None => str_lt(current, latest),
    }
}

/// What semver says of two tags (with leading `v`s removed): `None` unless
/// both parse, else whether the latest is newer.
pub open spec fn semver_comparison(latest: Seq<char>, current: Seq<char>) -> Option<bool> {
    if semver_accepts(latest) && semver_accepts(current) {
        Some(semver_newer(latest, current))
    } else {
        None
    }
}

/// The release tag is newer than the running version.
pub open spec fn tag_is_newer(release_tag: Seq<char>, current_version: Seq<char>) -> bool {
    let latest = trim_start_spec(release_tag, 'v');
    let current = trim_start_spec(current_version, 'v');
    update_wanted(semver_comparison(latest, current), latest, current)
}

/// Whether `release_tag` is newer than `current_version`: leading `v`s are
/// ignored; semver decides when both are semver versions, and plain text
/// order decides otherwise.
pub fn update_needed(release_tag: &str, current_version: &str) -> (r: bool)
    ensures
        r == tag_is_newer(release_tag@, current_version@),
{
    let latest = trim_start_char(release_tag, 'v');
    let current = trim_start_char(current_version, 'v');
    let verdict = match parse_version(latest.as_str()) {
        Ok(l) => match parse_version(current.as_str()) {
            Ok(c) => Some(version_gt(&l, &c)),
            Err(_) => None,
        },
        Err(_) => None,
    };
    decide_update(verdict, latest.as_str(), current.as_str())
}

proof fn lemma_trim_leading_v(s: Seq<char>)
    ensures
        trim_start_spec(seq!['v'] + s, 'v') == trim_start_spec(s, 'v'),
        trim_start_spec(trim_start_spec(s, 'v'), 'v') == trim_start_spec(s, 'v'),
        trim_start_spec(s, 'v').len() == 0 || trim_start_spec(s, 'v')[0] != 'v',
    decreases s.len(),
{
    assert((seq!['v'] + s).drop_first() =~= s);
    if s.len() > 0 && s[0] == 'v' {
        lemma_trim_leading_v(s.drop_first());
        assert(seq!['v'] + s.drop_first() =~= s);
    }
}

/// The update decision ignores leading `v`s on both the release tag and the
/// running version: adding one to either changes nothing, and the decision
/// is the one taken on the two texts with their leading `v`s removed.
pub proof fn lemma_update_ignores_leading_v(release_tag: Seq<char>, current_version: Seq<char>)
    ensures
        tag_is_newer(seq!['v'] + release_tag, current_version) == tag_is_newer(
            release_tag,
            current_version,
        ),
        tag_is_newer(release_tag, seq!['v'] + current_version) == tag_is_newer(
            release_tag,
            current_version,
        ),
        tag_is_newer(
            trim_start_spec(release_tag, 'v'),
            trim_start_spec(current_version, 'v'),
        ) == tag_is_newer(release_tag, current_version),
{
    lemma_trim_leading_v(release_tag);
    lemma_trim_leading_v(current_version);
}

/// On texts without a leading `v`: when semver reads both, its ordering
/// decides; otherwise the tag is newer exactly when the running version
/// sorts before it.
pub proof fn lemma_update_decision(release_tag: Seq<char>, current_version: Seq<char>)
    requires
        release_tag.len() == 0 || release_tag[0] != 'v',
        current_version.len() == 0 || current_version[0] != 'v',
    ensures
        semver_accepts(release_tag) && semver_accepts(current_version) ==> tag_is_newer(
            release_tag,
            current_version,
        ) == semver_newer(release_tag, current_version),
        !(semver_accepts(release_tag) && semver_accepts(current_version)) ==> tag_is_newer(
            release_tag,
            current_version,
        ) == lex_lt(current_version, release_tag),
{
}

/// The tag of `release` when it is newer than `current_version`.
pub fn available_update(release: &GithubRelease, current_version: &str) -> (r: Option<String>)
    ensures
        match r {
            Some(tag) => tag_is_newer(release.tag_name@, current_version@) && tag@
                == release.tag_name@,
            None => !tag_is_newer(release.tag_name@, current_version@),
        },
{
    if update_needed(release.tag_name.as_str(), current_version) {
        Some(release.tag_name.clone())
    } else {
        None
    }
}

/// The path the new module is downloaded to: the module path with `.tmp`
/// appended.
pub fn temp_dll_path(dll_path: &str) -> (r: String)
    ensures
        r@ == dll_path@ + ".tmp"@,
{
    let mut s = String::from_str(dll_path);
    append_str(&mut s, ".tmp");
    s
}

/// The text of the update script: exclude the download from Defender, stop
/// the game process, move the download over the module, lift the
/// exclusion, and run the game's command line again.
pub open spec fn update_script_text(
    tmp_path: Seq<char>,
    dll_path: Seq<char>,
    pid: u32,
    args: Seq<Seq<char>>,
) -> Seq<char> {
    "Add-MpPreference -ExclusionPath "@ + tmp_path + "\nStop-Process -Id "@ + decimal(pid as nat)
        + "\nwhile (Get-Process -Id "@ + decimal(pid as nat)
        + " -ErrorAction SilentlyContinue) {\n    Start-Sleep -Milliseconds 200\n}\nMove-Item -Force \""@
        + tmp_path + "\" \""@ + dll_path
        + "\"\nif (!$?) {\n    Write-Host \"Move failed!\"\n    Pause\n    Exit 1\n}\nRemove-MpPreference -ExclusionPath \""@
        + tmp_path + "\"\n"@ + join_lines(args, seq![' ']) + "\n"@
}

/// The views of `args`.
pub open spec fn arg_views(args: Seq<String>) -> Seq<Seq<char>> {
    args.map_values(|a: String| a@)
}

/// Builds the update script for the download at `tmp_path`, the module at
/// `dll_path`, the game process `pid` and its command line `args`.
pub fn update_script(tmp_path: &str, dll_path: &str, pid: u32, args: &Vec<String>) -> (r: String)
    ensures
        r@ == update_script_text(tmp_path@, dll_path@, pid, arg_views(args@)),
{
    let mut s = String::from_str("Add-MpPreference -ExclusionPath ");
    append_str(&mut s, tmp_path);
    append_str(&mut s, "\nStop-Process -Id ");
    append_decimal(&mut s, pid);
    append_str(&mut s, "\nwhile (Get-Process -Id ");
    append_decimal(&mut s, pid);
    append_str(
        &mut s,
        " -ErrorAction SilentlyContinue) {\n    Start-Sleep -Milliseconds 200\n}\nMove-Item -Force \"",
    );
    append_str(&mut s, tmp_path);
    append_str(&mut s, "\" \"");
    append_str(&mut s, dll_path);
    append_str(
        &mut s,
        "\"\nif (!$?) {\n    Write-Host \"Move failed!\"\n    Pause\n    Exit 1\n}\nRemove-MpPreference -ExclusionPath \"",
    );
    append_str(&mut s, tmp_path);
    append_str(&mut s, "\"\n");
    let ghost prefix = s@;
    let mut i: usize = 0;
    while i < args.len()
        invariant
            i <= args@.len(),
            s@ == prefix + join_lines(arg_views(args@.take(i as int)), seq![' ']),
        decreases args@.len() - i,
    {
        let ghost before = s@;
        if i > 0 {
            crate::text::push_char(&mut s, ' ');
        }
        append_str(&mut s, args[i].as_str());
        proof {
            let done = arg_views(args@.take(i as int));
            let next = arg_views(args@.take(i + 1));
            assert(next =~= done.push(args@[i as int]@));
            assert(next.drop_last() =~= done);
            if i > 0 {
                assert(s@ =~= prefix + (join_lines(done, seq![' ']) + seq![' '] + args@[i as int]@));
            } else {
                assert(s@ =~= prefix + join_lines(next, seq![' ']));
            }
        }
        i = i + 1;
    }
    proof {
        assert(args@.take(i as int) =~= args@);
    }
    append_str(&mut s, "\n");
    s
}

} // verus!

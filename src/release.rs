use vstd::prelude::*;

use crate::path::FsPath;

verus! {

/// Why an installation or a clean-up could not go ahead.
#[derive(Debug, Clone, Copy, PartialEq, Eq, Structural)]
pub enum InstallError {
    /// Neither Steam nor Epic was chosen, so no release asset can be picked.
    NoPlatformSelected,
    /// The release holds no `.zip` asset named for the chosen platform.
    AssetNotFound,
    /// The network request failed.
    Transport,
    /// A filesystem read, write, create or remove failed.
    Io,
}

/// The launcher whose build of a mod is installed.
#[derive(Debug, Clone, Copy, PartialEq, Eq, Structural)]
pub enum Platform {
    Steam,
    Epic,
}

/// The mods that can be installed, each published as releases of one repository.
#[allow(non_camel_case_types)]
#[derive(Debug, Clone, Copy, PartialEq, Eq, Structural)]
pub enum Mod {
    dark_roles,
    endless_host_roles,
    town_of_host,
    project_lotus,
    town_of_us_mira,
    toh_enhanced,
}

pub open spec fn repo_of(m: Mod) -> Seq<char> {
    match m {
        Mod::dark_roles => "Project-Echo-Development/The-Dark-Roles"@,
        Mod::endless_host_roles => "Gurge44/EndlessHostRoles"@,
        Mod::town_of_host => "tukasa0001/TownOfHost"@,
        Mod::project_lotus => "Lotus-AU/LotusContinued"@,
        Mod::town_of_us_mira => "AU-Avengers/TOU-Mira"@,
        Mod::toh_enhanced => "EnhancedNetwork/TownofHost-Enhanced"@,
    }
}

impl Mod {
    /// The repository, as `owner/name`, whose releases carry the mod.
    pub fn github_repo(&self) -> (r: &'static str)
        ensures
            r@ == repo_of(*self),
    {
        match self {
            Mod::dark_roles => "Project-Echo-Development/The-Dark-Roles",
            Mod::endless_host_roles => "Gurge44/EndlessHostRoles",
            Mod::town_of_host => "tukasa0001/TownOfHost",
            Mod::project_lotus => "Lotus-AU/LotusContinued",
            Mod::town_of_us_mira => "AU-Avengers/TOU-Mira",
            Mod::toh_enhanced => "EnhancedNetwork/TownofHost-Enhanced",
        }
    }
}

/// One downloadable file of a release.
#[derive(Debug)]
pub struct Asset {
    pub name: String,
    pub browser_download_url: String,
}

/// Where a mod is to be fetched from and where it is to be extracted.
#[derive(Debug)]
pub struct InstallTarget {
    pub url: String,
    pub root: FsPath,
}

pub open spec fn steam_default() -> Seq<char> {
    "C:/Program Files (x86)/Steam/steamapps/common/Among Us"@
}

pub open spec fn epic_default() -> Seq<char> {
    "C:/Program Files/Epic Games/AmongUs"@
}

/// The install directory for a placement choice.
pub open spec fn install_path_of(
    steam: bool,
    epic: bool,
    custom: bool,
    custom_path: Seq<char>,
) -> Seq<char> {
    if (steam || epic) && custom {
        custom_path
    } else if steam {
        steam_default()
    } else if epic {
        epic_default()
    } else {
        custom_path
    }
}

/// The platform picked by the two launcher flags; Steam wins when both are set.
pub open spec fn platform_of(steam: bool, epic: bool) -> Option<Platform> {
    if steam {
        Some(Platform::Steam)
    } else if epic {
        Some(Platform::Epic)
    } else {
        None
    }
}

pub open spec fn keyword_of(p: Platform) -> Seq<char> {
    match p {
        Platform::Steam => "steam"@,
        Platform::Epic => "epic"@,
    }
}

pub open spec fn ends_with(s: Seq<char>, suffix: Seq<char>) -> bool {
    suffix.len() <= s.len() && s.subrange(s.len() - suffix.len(), s.len() as int) == suffix
}

pub open spec fn occurs_at(s: Seq<char>, part: Seq<char>, i: int) -> bool {
    0 <= i && i + part.len() <= s.len() && s.subrange(i, i + part.len()) == part
}

pub open spec fn contains(s: Seq<char>, part: Seq<char>) -> bool {
    exists|i: int| occurs_at(s, part, i)
}

/// What `str::to_lowercase` makes of a text.
pub uninterp spec fn lower_of(s: Seq<char>) -> Seq<char>;

/// An asset is the platform's archive: its name ends in `.zip` and its
/// lower-cased name holds the platform keyword.
pub open spec fn asset_fits(name: Seq<char>, folded: Seq<char>, keyword: Seq<char>) -> bool {
    ends_with(name, ".zip"@) && contains(folded, keyword)
}

pub open spec fn asset_fits_platform(a: Asset, p: Platform) -> bool {
    asset_fits(a.name@, lower_of(a.name@), keyword_of(p))
}

/// The address of the latest release of a repository.
pub open spec fn release_url_of(repo: Seq<char>) -> Seq<char> {
    "https://api.github.com/repos/"@ + repo + "/releases/latest"@
}

/// Relies on `str::to_lowercase`: the result depends on the characters alone.
#[verifier::external_body]
fn lowercase(s: &str) -> (r: String)
    ensures
        r@ == lower_of(s@),
{
    s.to_lowercase()
}

impl Platform {
    /// The word that names the platform in an asset's file name.
    pub fn keyword(&self) -> (r: &'static str)
        ensures
            r@ == keyword_of(*self),
    {
        match self {
            Platform::Steam => "steam",
            Platform::Epic => "epic",
        }
    }
}

/// Whether `s` ends with `suffix`.
pub fn text_ends_with(s: &str, suffix: &str) -> (r: bool)
    ensures
        r == ends_with(s@, suffix@),
{
    let n = s.unicode_len();
    let k = suffix.unicode_len();
    if k > n {
        return false;
    }
    occurs_at_exec(s, suffix, n - k)
}

/// Whether `part` stands in `s` from character `i` on.
fn occurs_at_exec(s: &str, part: &str, i: usize) -> (r: bool)
    requires
        i + part@.len() <= s@.len(),
        s@.len() <= usize::MAX,
    ensures
        r == occurs_at(s@, part@, i as int),
{
    let k = part.unicode_len();
    let mut j: usize = 0;
    while j < k
        invariant
            k == part@.len(),
            i + k <= s@.len(),
            s@.len() <= usize::MAX,
            j <= k,
            s@.subrange(i as int, i + j) == part@.subrange(0, j as int),
        decreases k - j,
    {
        if s.get_char(i + j) != part.get_char(j) {
            assert(s@.subrange(i as int, i + k)[j as int] != part@[j as int]);
            return false;
        }
        assert(s@.subrange(i as int, i + j + 1) =~= s@.subrange(i as int, i + j).push(
            s@[i + j],
        ));
        assert(part@.subrange(0, j + 1) =~= part@.subrange(0, j as int).push(part@[j as int]));
        j = j + 1;
    }
    assert(part@.subrange(0, k as int) =~= part@);
    true
}

/// Whether `part` occurs somewhere in `s`.
pub fn text_contains(s: &str, part: &str) -> (r: bool)
    ensures
        r == contains(s@, part@),
{
    let n = s.unicode_len();
    let k = part.unicode_len();
    if k > n {
        return false;
    }
    let mut i: usize = 0;
    loop
        invariant
            n == s@.len(),
            k == part@.len(),
            k <= n,
            i <= n - k,
            forall|m: int| 0 <= m < i ==> !occurs_at(s@, part@, m),
        decreases n - k - i,
    {
        if occurs_at_exec(s, part, i) {
            return true;
        }
        if i == n - k {
            assert forall|m: int| !occurs_at(s@, part@, m) by {
                if 0 <= m < i {
                }
            }
            return false;
        }
        i = i + 1;
    }
}

/// Whether an asset is the platform's archive, given its name and the
/// lower-cased form of that name.
pub fn asset_fits_folded(name: &str, folded: &str, keyword: &str) -> (r: bool)
    ensures
        r == asset_fits(name@, folded@, keyword@),
{
    text_ends_with(name, ".zip") && text_contains(folded, keyword)
}

/// Picks the platform named by the launcher flags.
pub fn select_platform(install_steam: bool, install_epic: bool) -> (r: Result<Platform, InstallError>)
    ensures
        platform_of(install_steam, install_epic) matches Some(p) ==> r == Ok::<Platform, InstallError>(p),
        platform_of(install_steam, install_epic) is None ==> r == Err::<Platform, InstallError>(InstallError::NoPlatformSelected),
{
    if install_steam {
        Ok(Platform::Steam)
    } else if install_epic {
        Ok(Platform::Epic)
    } else {
        Err(InstallError::NoPlatformSelected)
    }
}

/// The download address of the first asset that is the platform's archive.
pub fn find_asset(assets: &Vec<Asset>, platform: Platform) -> (r: Result<String, InstallError>)
    ensures
        r.is_err() <==> forall|i: int| 0 <= i < assets@.len() ==> !asset_fits_platform(#[trigger] assets@[i], platform),
        r.is_err() ==> r == Err::<String, InstallError>(InstallError::AssetNotFound),
        r matches Ok(url) ==> exists|i: int|
            0 <= i < assets@.len()
            && asset_fits_platform(#[trigger] assets@[i], platform)
            && (forall|j: int| 0 <= j < i ==> !asset_fits_platform(#[trigger] assets@[j], platform))
            && url@ == assets@[i].browser_download_url@,
{
    let keyword = platform.keyword();
    let mut i: usize = 0;
    while i < assets.len()
        invariant
            keyword@ == keyword_of(platform),
            i <= assets@.len(),
            forall|j: int| 0 <= j < i ==> !asset_fits_platform(#[trigger] assets@[j], platform),
        decreases assets@.len() - i,
    {
        let a = &assets[i];
        let folded = lowercase(a.name.as_str());
        if asset_fits_folded(a.name.as_str(), folded.as_str(), keyword) {
            return Ok(a.browser_download_url.clone());
        }
        i = i + 1;
    }
    Err(InstallError::AssetNotFound)
}

/// The address of the latest release of a repository, given as `owner/name`.
pub fn release_url(repo: &str) -> (r: String)
    ensures
        r@ == release_url_of(repo@),
{
    let mut r = String::from_str("https://api.github.com/repos/");
    r.append(repo);
    r.append("/releases/latest");
    r
}

/// The download address of the platform's archive among a release's assets.
pub fn fetch_latest_release_zip(assets: &Vec<Asset>, install_steam: bool, install_epic: bool) -> (r: Result<String, InstallError>)
    ensures
        platform_of(install_steam, install_epic) is None ==> r == Err::<String, InstallError>(InstallError::NoPlatformSelected),
        platform_of(install_steam, install_epic) matches Some(p) ==> {
            &&& r.is_err() <==> forall|i: int| 0 <= i < assets@.len() ==> !asset_fits_platform(#[trigger] assets@[i], p)
            &&& r.is_err() ==> r == Err::<String, InstallError>(InstallError::AssetNotFound)
            &&& r matches Ok(url) ==> exists|i: int|
                0 <= i < assets@.len()
                && asset_fits_platform(#[trigger] assets@[i], p)
                && (forall|j: int| 0 <= j < i ==> !asset_fits_platform(#[trigger] assets@[j], p))
                && url@ == assets@[i].browser_download_url@
        },
{
    match select_platform(install_steam, install_epic) {
        Ok(p) => find_asset(assets, p),
        Err(e) => Err(e),
    }
}

/// The install directory for a placement choice: a launcher's default
/// directory, or the custom path when it is chosen or no launcher is.
pub fn get_install_path(
    install_steam: bool,
    install_epic: bool,
    install_custom: bool,
    custom_path: &str,
) -> (r: Result<String, InstallError>)
    ensures
        r matches Ok(p) && p@ == install_path_of(install_steam, install_epic, install_custom, custom_path@),
{
    if install_steam {
        if install_custom {
            Ok(String::from_str(custom_path))
        } else {
            Ok(String::from_str("C:/Program Files (x86)/Steam/steamapps/common/Among Us"))
        }
    } else if install_epic {
        if install_custom {
            Ok(String::from_str(custom_path))
        } else {
            Ok(String::from_str("C:/Program Files/Epic Games/AmongUs"))
        }
    } else {
        Ok(String::from_str(custom_path))
    }
}

/// Decides what an installation fetches and where it puts it: the platform's
/// archive among the release's assets, and the install directory.
pub fn install_mod(
    assets: &Vec<Asset>,
    install_steam: bool,
    install_epic: bool,
    install_custom: bool,
    custom_path: &str,
) -> (r: Result<InstallTarget, InstallError>)
    ensures
        platform_of(install_steam, install_epic) is None ==> r == Err::<InstallTarget, InstallError>(InstallError::NoPlatformSelected),
        platform_of(install_steam, install_epic) matches Some(p) ==> {
            &&& r.is_err() <==> forall|i: int| 0 <= i < assets@.len() ==> !asset_fits_platform(#[trigger] assets@[i], p)
            &&& r is Err ==> r == Err::<InstallTarget, InstallError>(InstallError::AssetNotFound)
            &&& r matches Ok(t) ==> {
                &&& t.root@ == crate::path::path_parts(install_path_of(install_steam, install_epic, install_custom, custom_path@))
                &&& exists|i: int|
                    0 <= i < assets@.len()
                    && asset_fits_platform(#[trigger] assets@[i], p)
                    && (forall|j: int| 0 <= j < i ==> !asset_fits_platform(#[trigger] assets@[j], p))
                    && t.url@ == assets@[i].browser_download_url@
            }
        },
{
    let url = match fetch_latest_release_zip(assets, install_steam, install_epic) {
        Ok(u) => u,
        Err(e) => {
            return Err(e);
        },
    };
    let dir = match get_install_path(install_steam, install_epic, install_custom, custom_path) {
        Ok(d) => d,
        Err(e) => {
            return Err(e);
        },
    };
    let root = FsPath::parse(dir.as_str());
    Ok(InstallTarget { url, root })
}

} // verus!

use vstd::prelude::*;

use crate::utils::str_eq;

verus! {

/// The host platform is outside the supported set.
#[derive(Clone, Copy, Debug, PartialEq, Eq, Structural)]
pub struct PlatformError;

/// The resolved host platform: a supported operating system and CPU
/// architecture pair, plus the executable suffix that platform uses.
#[derive(Debug)]
pub struct Basis {
    pub os: String,
    pub arch: String,
    pub suffix: String,
}

impl Basis {
    /// A well-formed platform: one of the supported pairs, with an empty
    /// suffix, since none of the supported systems names executables by
    /// a suffix.
    pub open spec fn wf(&self) -> bool {
        &&& (self.os@ == "linux"@ || self.os@ == "android"@)
        &&& (self.arch@ == "x86_64"@ || self.arch@ == "aarch64"@)
        &&& self.suffix@ == Seq::<char>::empty()
    }

    /// Resolves an operating system and architecture pair, failing on
    /// anything outside {linux, android} x {x86_64, aarch64}.  The caller
    /// at process bootstrap decides whether such a failure ends the
    /// process; nothing here does.
    pub fn resolve(os: &str, arch: &str) -> (r: Result<Basis, PlatformError>)
        ensures
            match r {
                Ok(b) => {
                    &&& b.wf()
                    &&& b.os@ == os@
                    &&& b.arch@ == arch@
                },
                Err(_) => !((os@ == "linux"@ || os@ == "android"@) && (arch@ == "x86_64"@ || arch@
                    == "aarch64"@)),
            },
    {
        let os_ok = str_eq(os, "linux") || str_eq(os, "android");
        let arch_ok = str_eq(arch, "x86_64") || str_eq(arch, "aarch64");
        if os_ok && arch_ok {
            Ok(
                Basis {
                    os: String::from_str(os),
                    arch: String::from_str(arch),
                    suffix: String::new(),
                },
            )
        } else {
            Err(PlatformError)
        }
    }

    /// A second value of the same platform.
    pub fn duplicate(&self) -> (r: Basis)
        ensures
            r.os@ == self.os@,
            r.arch@ == self.arch@,
            r.suffix@ == self.suffix@,
            self.wf() ==> r.wf(),
    {
        Basis {
            os: self.os.clone(),
            arch: self.arch.clone(),
            suffix: self.suffix.clone(),
        }
    }
}

/// Why acquiring a tool failed.
#[derive(Debug)]
pub enum AcquisitionError {
    /// The release listing could not be fetched or read, with the reason.
    ReleaseFetchError(String),
    /// No asset of the release matches the tool's naming rule.
    AssetNotFoundError,
    /// The matched asset cannot be downloaded, with the reason.
    DownloadError(String),
    /// The downloaded archive has no member under the expected path.
    ArchiveMemberNotFoundError,
    /// Writing the tool to disk failed, with the reason.
    IoError(String),
}

impl AcquisitionError {
    /// The message shown for this failure.
    pub fn message(self) -> (r: String)
        ensures
            self is ReleaseFetchError ==> r == self->ReleaseFetchError_0,
            self is AssetNotFoundError ==> r@ == "'assets' not found in release"@,
            self is DownloadError ==> r == self->DownloadError_0,
            self is ArchiveMemberNotFoundError ==> r@
                == "No matching member in the downloaded archive"@,
            self is IoError ==> r == self->IoError_0,
    {
        match self {
            AcquisitionError::ReleaseFetchError(m) => m,
            AcquisitionError::AssetNotFoundError => String::from_str(
                "'assets' not found in release",
            ),
            AcquisitionError::DownloadError(m) => m,
            AcquisitionError::ArchiveMemberNotFoundError => String::from_str(
                "No matching member in the downloaded archive",
            ),
            AcquisitionError::IoError(m) => m,
        }
    }
}

/// One asset of a release: either field may be missing from the JSON.
#[derive(Debug)]
pub struct Asset {
    pub name: Option<String>,
    pub url: Option<String>,
}

impl View for Asset {
    type V = (Option<Seq<char>>, Option<Seq<char>>);

    open spec fn view(&self) -> Self::V {
        (
            match self.name {
                Some(ref s) => Some(s@),
                None => None,
            },
            match self.url {
                Some(ref s) => Some(s@),
                None => None,
            },
        )
    }
}

pub open spec fn asset_views(v: Seq<Asset>) -> Seq<(Option<Seq<char>>, Option<Seq<char>>)> {
    v.map(|_i: int, a: Asset| a@)
}

/// What a release host's JSON answer carries: `None` when the text is
/// not such an answer, else the name and download address of each entry
/// of its assets array, in order.
pub uninterp spec fn release_assets_of(s: Seq<char>) -> Option<
    Seq<(Option<Seq<char>>, Option<Seq<char>>)>,
>;

/// Reads a release host's JSON answer.
///
/// Relies on `serde_json::from_str` and the `Value` accessors `get`,
/// `as_array` and `as_str`: the result is the `assets` array of the
/// parsed document, each entry reduced to its `name` and
/// `browser_download_url` fields, absent or differently typed fields
/// read as `None`.  On failure the error carries the parser's message,
/// of which nothing is claimed.
#[verifier::external_body]
fn parse_release_assets(s: &str) -> (r: Result<Vec<Asset>, String>)
    ensures
        match r {
            Ok(v) => release_assets_of(s@) == Some(asset_views(v@)),
            Err(_) => release_assets_of(s@) is None,
        },
{
    let val: serde_json::Value = serde_json::from_str(s).map_err(|e| e.to_string())?;
    let arr = val.get("assets").and_then(|v| v.as_array()).ok_or_else(
        || "'assets' not found in release".to_string(),
    )?;
    Ok(
        arr.iter().map(
            |a: &serde_json::Value| Asset {
                name: a.get("name").and_then(|x| x.as_str()).map(|x| x.to_string()),
                url: a.get("browser_download_url").and_then(|x| x.as_str()).map(
                    |x| x.to_string(),
                ),
            },
        ).collect(),
    )
}

/// What one named member of a zip archive holds: `None` when the bytes
/// are not an archive readable here or no member bears the name.
pub uninterp spec fn zip_member_of(archive: Seq<u8>, name: Seq<char>) -> Option<Seq<u8>>;

/// Extracts one named member from a zip archive held in memory.
///
/// Relies on `zip::ZipArchive::new`, `ZipArchive::by_name` and
/// `std::io::Read::read_to_end`: the result is the decompressed content
/// of the member under exactly that path, when the archive and the
/// member exist.
#[verifier::external_body]
fn zip_extract_member(archive: &Vec<u8>, name: &str) -> (r: Option<Vec<u8>>)
    ensures
        match r {
            Some(v) => zip_member_of(archive@, name@) == Some(v@),
            None => zip_member_of(archive@, name@) is None,
        },
{
    let cursor = std::io::Cursor::new(archive.as_slice());
    let mut ar = zip::ZipArchive::new(cursor).ok()?;
    let mut file = ar.by_name(name).ok()?;
    let mut content = Vec::new();
    std::io::Read::read_to_end(&mut file, &mut content).ok()?;
    Some(content)
}

/// The place a tool is cached at: `bin/<os>/<arch>/<name><suffix>`.
pub open spec fn spec_tool_path(
    os: Seq<char>,
    arch: Seq<char>,
    name: Seq<char>,
    suffix: Seq<char>,
) -> Seq<char> {
    "bin/"@ + os + "/"@ + arch + "/"@ + name + suffix
}

fn build_tool_path(basis: &Basis, name: &str) -> (r: String)
    ensures
        r@ == spec_tool_path(basis.os@, basis.arch@, name@, basis.suffix@),
{
    let mut s = String::from_str("bin/");
    s.append(basis.os.as_str());
    s.append("/");
    s.append(basis.arch.as_str());
    s.append("/");
    s.append(name);
    s.append(basis.suffix.as_str());
    s
}

/// What every tool offers: a name, a cached location, and the rules that
/// pick and post-process its release asset.
pub trait Tool: Sized {
    spec fn wf(&self) -> bool;

    spec fn spec_name(&self) -> Seq<char>;

    spec fn spec_path(&self) -> Seq<char>;

    spec fn spec_release_url(&self) -> Seq<char>;

    spec fn spec_asset_matches(&self, name: Seq<char>) -> bool;

    /// What post-processing leaves of the downloaded bytes, when it
    /// succeeds.
    spec fn spec_postprocess(&self, bytes: Seq<u8>) -> Option<Seq<u8>>;

    /// Derives the tool for the given platform.  The cached location is
    /// a pure function of that platform: deriving twice from equal
    /// platforms yields the same path.
    fn from(basis: Basis) -> (r: Self)
        requires
            basis.wf(),
        ensures
            r.wf(),
            r.spec_path() == spec_tool_path(basis.os@, basis.arch@, r.spec_name(), basis.suffix@),
    ;

    fn get_name(&self) -> (r: String)
        requires
            self.wf(),
        ensures
            r@ == self.spec_name(),
    ;

    fn get(&self) -> (r: String)
        requires
            self.wf(),
        ensures
            r@ == self.spec_path(),
    ;

    /// The release host endpoint that lists this tool's latest release.
    fn release_url(&self) -> (r: String)
        requires
            self.wf(),
        ensures
            r@ == self.spec_release_url(),
    ;

    /// Whether a release asset under this name is the one to download.
    fn asset_matches(&self, name: &str) -> (r: bool)
        requires
            self.wf(),
        ensures
            r == self.spec_asset_matches(name@),
    ;

    /// Turns the downloaded bytes into the bytes cached on disk.
    fn postprocess(&self, bytes: Vec<u8>) -> (r: Result<Vec<u8>, AcquisitionError>)
        requires
            self.wf(),
        ensures
            match r {
                Ok(v) => self.spec_postprocess(bytes@) == Some(v@),
                Err(e) => self.spec_postprocess(bytes@) is None && e
                    is ArchiveMemberNotFoundError,
            },
    ;
}

/// What the two tools share: the platform they were resolved for, a
/// display name and the path they are cached at.
#[derive(Debug)]
pub struct BaseTool {
    pub basis: Basis,
    pub name: String,
    pub path: String,
}

impl BaseTool {
    pub open spec fn wf_named(&self, name: Seq<char>) -> bool {
        &&& self.basis.wf()
        &&& self.name@ == name
        &&& self.path@ == spec_tool_path(self.basis.os@, self.basis.arch@, name, self.basis.suffix@)
    }
}

fn base_tool(basis: Basis, name: &str) -> (r: BaseTool)
    requires
        basis.wf(),
    ensures
        r.wf_named(name@),
        r.basis.os@ == basis.os@,
        r.basis.arch@ == basis.arch@,
        r.basis.suffix@ == basis.suffix@,
{
    let path = build_tool_path(&basis, name);
    BaseTool { basis, name: String::from_str(name), path }
}

/// The KernelSU patch driver.
#[derive(Debug)]
pub struct KSUD(pub BaseTool);

/// The boot-image unpacking helper.
#[derive(Debug)]
pub struct MAGISKBOOT(pub BaseTool);

/// The release asset name ksud is published under for this platform.
pub open spec fn spec_ksud_asset(arch: Seq<char>, os: Seq<char>) -> Seq<char> {
    "ksud-"@ + arch + "-"@ + (if os == "linux"@ {
        "unknown-linux-musl"@
    } else {
        "linux-android"@
    })
}

impl Tool for KSUD {
    open spec fn wf(&self) -> bool {
        self.0.wf_named("ksud"@)
    }

    open spec fn spec_name(&self) -> Seq<char> {
        self.0.name@
    }

    open spec fn spec_path(&self) -> Seq<char> {
        self.0.path@
    }

    open spec fn spec_release_url(&self) -> Seq<char> {
        "https://api.github.com/repos/tiann/KernelSU/releases/latest"@
    }

    open spec fn spec_asset_matches(&self, name: Seq<char>) -> bool {
        name == spec_ksud_asset(self.0.basis.arch@, self.0.basis.os@)
    }

    open spec fn spec_postprocess(&self, bytes: Seq<u8>) -> Option<Seq<u8>> {
        Some(bytes)
    }

    fn from(basis: Basis) -> (r: Self) {
        KSUD(base_tool(basis, "ksud"))
    }

    fn get_name(&self) -> (r: String) {
        self.0.name.clone()
    }

    fn get(&self) -> (r: String) {
        self.0.path.clone()
    }

    fn release_url(&self) -> (r: String) {
        String::from_str("https://api.github.com/repos/tiann/KernelSU/releases/latest")
    }

    fn asset_matches(&self, name: &str) -> (r: bool) {
        let mut expected = String::from_str("ksud-");
        expected.append(self.0.basis.arch.as_str());
        expected.append("-");
        if str_eq(self.0.basis.os.as_str(), "linux") {
            expected.append("unknown-linux-musl");
        } else {
            expected.append("linux-android");
        }
        str_eq(name, expected.as_str())
    }

    fn postprocess(&self, bytes: Vec<u8>) -> (r: Result<Vec<u8>, AcquisitionError>) {
        Ok(bytes)
    }
}

/// The path inside the Magisk app package that holds the unpacking
/// helper for this architecture.
pub open spec fn spec_magiskboot_member(arch: Seq<char>) -> Seq<char> {
    "lib/"@ + (if arch == "x86_64"@ {
        "x86_64"@
    } else {
        "arm64-v8a"@
    }) + "/libmagiskboot.so"@
}

impl MAGISKBOOT {
    /// The archive member to extract on this platform.
    pub fn zip_member_name(&self) -> (r: String)
        requires
            self.wf(),
        ensures
            r@ == spec_magiskboot_member(self.0.basis.arch@),
    {
        let mut s = String::from_str("lib/");
        if str_eq(self.0.basis.arch.as_str(), "x86_64") {
            s.append("x86_64");
        } else {
            s.append("arm64-v8a");
        }
        s.append("/libmagiskboot.so");
        s
    }
}

impl Tool for MAGISKBOOT {
    open spec fn wf(&self) -> bool {
        self.0.wf_named("magiskboot"@)
    }

    open spec fn spec_name(&self) -> Seq<char> {
        self.0.name@
    }

    open spec fn spec_path(&self) -> Seq<char> {
        self.0.path@
    }

    open spec fn spec_release_url(&self) -> Seq<char> {
        "https://api.github.com/repos/topjohnwu/Magisk/releases/latest"@
    }

    /// Magisk app packages are picked by prefix: the first asset whose
    /// name starts with `Magisk-v` wins.
    open spec fn spec_asset_matches(&self, name: Seq<char>) -> bool {
        name.len() >= 8 && name.subrange(0, 8) == "Magisk-v"@
    }

    open spec fn spec_postprocess(&self, bytes: Seq<u8>) -> Option<Seq<u8>> {
        zip_member_of(bytes, spec_magiskboot_member(self.0.basis.arch@))
    }

    fn from(basis: Basis) -> (r: Self) {
        MAGISKBOOT(base_tool(basis, "magiskboot"))
    }

    fn get_name(&self) -> (r: String) {
        self.0.name.clone()
    }

    fn get(&self) -> (r: String) {
        self.0.path.clone()
    }

    fn release_url(&self) -> (r: String) {
        String::from_str("https://api.github.com/repos/topjohnwu/Magisk/releases/latest")
    }

    fn asset_matches(&self, name: &str) -> (r: bool) {
        let n = name.unicode_len();
        if n < 8 {
            return false;
        }
        proof {
            reveal_strlit("Magisk-v");
        }
        let r = name.get_char(0) == 'M' && name.get_char(1) == 'a' && name.get_char(2) == 'g'
            && name.get_char(3) == 'i' && name.get_char(4) == 's' && name.get_char(5) == 'k'
            && name.get_char(6) == '-' && name.get_char(7) == 'v';
        proof {
            let p = name@.subrange(0, 8);
            assert(p[0] == name@[0] && p[1] == name@[1] && p[2] == name@[2] && p[3] == name@[3]
                && p[4] == name@[4] && p[5] == name@[5] && p[6] == name@[6] && p[7] == name@[7]);
            if r {
                assert(p =~= "Magisk-v"@);
            } else {
                if self.spec_asset_matches(name@) {
                    assert(p == "Magisk-v"@);
                    assert(false);
                }
            }
        }
        r
    }

    fn postprocess(&self, bytes: Vec<u8>) -> (r: Result<Vec<u8>, AcquisitionError>) {
        let member = self.zip_member_name();
        match zip_extract_member(&bytes, member.as_str()) {
            Some(v) => Ok(v),
            None => Err(AcquisitionError::ArchiveMemberNotFoundError),
        }
    }
}

/// The first asset whose name is present and matches the tool's rule.
pub open spec fn select_view<T: Tool>(
    tool: &T,
    assets: Seq<(Option<Seq<char>>, Option<Seq<char>>)>,
) -> Option<(Option<Seq<char>>, Option<Seq<char>>)>
    decreases assets.len(),
{
    if assets.len() == 0 {
        None
    } else if (assets[0].0 matches Some(n) && tool.spec_asset_matches(n)) {
        Some(assets[0])
    } else {
        select_view(tool, assets.drop_first())
    }
}

/// A selected asset always carries a name, and that name matches.
pub proof fn lemma_select_view_named<T: Tool>(
    tool: &T,
    assets: Seq<(Option<Seq<char>>, Option<Seq<char>>)>,
)
    ensures
        select_view(tool, assets) matches Some(a) ==> a.0 matches Some(n)
            && tool.spec_asset_matches(n),
    decreases assets.len(),
{
    if assets.len() != 0 && !(assets[0].0 matches Some(n) && tool.spec_asset_matches(n)) {
        lemma_select_view_named(tool, assets.drop_first());
    }
}

fn asset_name_matches<T: Tool>(tool: &T, asset: &Asset) -> (r: bool)
    requires
        tool.wf(),
    ensures
        r == (asset@.0 matches Some(n) && tool.spec_asset_matches(n)),
{
    match &asset.name {
        Some(nm) => {
            let m = tool.asset_matches(nm.as_str());
            proof {
                assert(asset@.0 == Some(nm@));
            }
            m
        },
        None => false,
    }
}

/// The index of the first matching asset.  "First match wins": nothing
/// disambiguates several matches.
fn select_asset<T: Tool>(tool: &T, assets: &Vec<Asset>) -> (r: Option<usize>)
    requires
        tool.wf(),
    ensures
        match r {
            Some(i) => i < assets@.len() && select_view(tool, asset_views(assets@)) == Some(
                assets@[i as int]@,
            ),
            None => select_view(tool, asset_views(assets@)) is None,
        },
{
    let ghost av = asset_views(assets@);
    let mut k: usize = 0;
    proof {
        assert(av.skip(0) =~= av);
    }
    while k < assets.len()
        invariant
            k <= assets@.len(),
            av == asset_views(assets@),
            av.len() == assets@.len(),
            forall|m: int| 0 <= m < av.len() ==> av[m] == assets@[m]@,
            select_view(tool, av) == select_view(tool, av.skip(k as int)),
            tool.wf(),
        decreases assets@.len() - k,
    {
        proof {
            assert(av.skip(k as int)[0] == av[k as int]);
            assert(av.skip(k as int).drop_first() =~= av.skip(k + 1));
        }
        if asset_name_matches(tool, &assets[k]) {
            return Some(k);
        }
        k += 1;
    }
    None
}

/// What the release answer decides: the matched asset's name and
/// download address, or exactly which step cannot go on.  An unreadable
/// answer is a release-fetch failure; a readable one without a matching
/// asset leaves nothing to download, and nothing is written in that
/// case; a matching asset without an address cannot be downloaded.
pub fn plan_fetch<T: Tool>(tool: &T, release_json: &str) -> (r: Result<
    (String, String),
    AcquisitionError,
>)
    requires
        tool.wf(),
    ensures
        match r {
            Ok(p) => release_assets_of(release_json@) matches Some(av) && select_view(tool, av)
                matches Some(a) && a.0 == Some(p.0@) && a.1 == Some(p.1@),
            Err(e) => match e {
                AcquisitionError::ReleaseFetchError(_) => release_assets_of(release_json@)
                    is None,
                AcquisitionError::AssetNotFoundError => release_assets_of(release_json@) matches
                    Some(av) && select_view(tool, av) is None,
                AcquisitionError::DownloadError(_) => release_assets_of(release_json@) matches
                    Some(av) && select_view(tool, av) matches Some(a) && a.1 is None,
                _ => false,
            },
        },
{
    let assets = match parse_release_assets(release_json) {
        Ok(v) => v,
        Err(m) => {
            return Err(AcquisitionError::ReleaseFetchError(m));
        },
    };
    match select_asset(tool, &assets) {
        Some(i) => {
            let a = &assets[i];
            proof {
                lemma_select_view_named(tool, asset_views(assets@));
            }
            let name = match &a.name {
                Some(n) => n.clone(),
                None => {
                    proof {
                        assert(assets@[i as int]@.0 is None);
                        assert(false);
                    }
                    String::new()
                },
            };
            match &a.url {
                Some(u) => Ok((name, u.clone())),
                None => Err(
                    AcquisitionError::DownloadError(
                        String::from_str("'download_url' not found in release"),
                    ),
                ),
            }
        },
        None => Err(AcquisitionError::AssetNotFoundError),
    }
}

/// What `ensure_present` decides from an existence check.
#[derive(Clone, Copy, Debug, PartialEq, Eq, Structural)]
pub enum EnsureAction {
    /// The tool is already cached: nothing is fetched.
    AlreadyPresent,
    /// The tool is absent: fetch its latest release.
    Fetch,
}

/// The decision `ensure_present` takes when the cached file exists or
/// not.
pub open spec fn spec_ensure_action(exists: bool) -> EnsureAction {
    if exists {
        EnsureAction::AlreadyPresent
    } else {
        EnsureAction::Fetch
    }
}

/// How many fetches an action performs.
pub open spec fn spec_fetches(a: EnsureAction) -> nat {
    if a is Fetch {
        1
    } else {
        0
    }
}

pub fn ensure_plan(exists: bool) -> (r: EnsureAction)
    ensures
        r == spec_ensure_action(exists),
{
    if exists {
        EnsureAction::AlreadyPresent
    } else {
        EnsureAction::Fetch
    }
}

/// Two ensure rounds fetch at most once, and exactly once when the tool
/// was absent at first.  `exists1` and `exists2` are what the two
/// existence checks saw; the single assumption about the world stands in
/// the requires: a first round that completes leaves the tool on disk,
/// because it either found the file or wrote it with a successful fetch.
/// Under it, the second round is a pure existence check that fetches
/// nothing.
pub proof fn lemma_ensure_present_idempotent(exists1: bool, exists2: bool)
    requires
        exists2,
    ensures
        spec_ensure_action(exists2) == EnsureAction::AlreadyPresent,
        spec_fetches(spec_ensure_action(exists1)) + spec_fetches(spec_ensure_action(exists2))
            <= 1,
        !exists1 ==> spec_fetches(spec_ensure_action(exists1)) + spec_fetches(
            spec_ensure_action(exists2),
        ) == 1,
{
}

/// Both tools, resolved once for the platform.
pub struct ToolManager {
    pub ksud: KSUD,
    pub magiskboot: MAGISKBOOT,
}

impl ToolManager {
    /// Builds both tools from one resolved platform.  Each tool is
    /// cached at the path that platform determines, so re-deriving from
    /// an equal platform yields identical paths.
    pub fn from_basis(basis: Basis) -> (r: ToolManager)
        requires
            basis.wf(),
        ensures
            r.ksud.wf(),
            r.magiskboot.wf(),
            r.ksud.spec_name() == "ksud"@,
            r.magiskboot.spec_name() == "magiskboot"@,
            r.ksud.spec_path() == spec_tool_path(basis.os@, basis.arch@, "ksud"@, basis.suffix@),
            r.magiskboot.spec_path() == spec_tool_path(
                basis.os@,
                basis.arch@,
                "magiskboot"@,
                basis.suffix@,
            ),
    {
        let second = basis.duplicate();
        let ksud = <KSUD as Tool>::from(basis);
        let magiskboot = <MAGISKBOOT as Tool>::from(second);
        ToolManager { ksud, magiskboot }
    }

    pub fn get_magiskboot(&self) -> (r: &MAGISKBOOT)
        ensures
            r == &self.magiskboot,
    {
        &self.magiskboot
    }

    pub fn get_ksud(&self) -> (r: &KSUD)
        ensures
            r == &self.ksud,
    {
        &self.ksud
    }
}

} // verus!

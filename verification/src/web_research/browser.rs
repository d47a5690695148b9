//! Pages that only a browser can show.
use crate::json::{json_quoted, quote_json};
use crate::text::{ellipsize, ellipsized, replace, replace_str, str_eq, views};
use crate::web_research::config::Millis;
use vstd::prelude::*;

verus! {

/// Why a browser showed no page.
#[derive(Debug, PartialEq, Eq)]
pub enum BrowserError {
    BrowserNotFound,
    Unavailable(String),
    Cancelled,
    Timeout,
    Failed(String),
}

impl BrowserError {
    pub open spec fn text(self) -> Seq<char> {
        match self {
            BrowserError::BrowserNotFound => "no system Chrome/Edge binary found"@,
            BrowserError::Unavailable(e) => "browser_unavailable: "@ + e@,
            BrowserError::Cancelled => "browser_cancelled"@,
            BrowserError::Timeout => "browser_timeout"@,
            BrowserError::Failed(e) => "browser_failed: "@ + e@,
        }
    }

    /// The text that a user sees.
    pub fn message(&self) -> (r: String)
        ensures
            r@ == self.text(),
    {
        match self {
            BrowserError::BrowserNotFound => "no system Chrome/Edge binary found".to_string(),
            BrowserError::Unavailable(e) => {
                let mut r = "browser_unavailable: ".to_string();
                r.append(e.as_str());
                r
            },
            BrowserError::Cancelled => "browser_cancelled".to_string(),
            BrowserError::Timeout => "browser_timeout".to_string(),
            BrowserError::Failed(e) => {
                let mut r = "browser_failed: ".to_string();
                r.append(e.as_str());
                r
            },
        }
    }
}

/// A page that a browser is to show.
#[derive(Debug)]
pub struct BrowserFetchRequest {
    pub url: String,
    pub profile_dir: String,
    pub download_dir: String,
    pub timeout: Millis,
}

/// A page that a browser showed.
#[derive(Debug)]
pub struct BrowserFetchResult {
    pub final_url: String,
    pub html: Vec<u8>,
    pub browser_id: String,
}

/// A browser, and where it is.
#[derive(Debug)]
pub struct DiscoveredBrowser {
    pub id: String,
    pub path: String,
}

impl Clone for DiscoveredBrowser {
    fn clone(&self) -> (r: Self)
        ensures
            r == *self,
    {
        DiscoveredBrowser { id: self.id.clone(), path: self.path.clone() }
    }
}

/// A browser, and where it is, in characters.
pub open spec fn browser_views(v: Seq<DiscoveredBrowser>) -> Seq<(Seq<char>, Seq<char>)> {
    v.map_values(|b: DiscoveredBrowser| (b.id@, b.path@))
}

/// The system that browsers are looked for on.
#[derive(Debug, Clone, Copy, PartialEq, Eq, Structural)]
pub enum Platform {
    Windows,
    MacOs,
    /// Linux or FreeBSD.
    Unix,
    Other,
}

/// A path on Windows with a name behind it.
pub open spec fn windows_joined(base: Seq<char>, name: Seq<char>) -> Seq<char> {
    if base.len() == 0 || base.last() == '\\' || base.last() == '/' || (base.len() == 2 && base[1]
        == ':' && is_letter(base[0])) {
        base + name
    } else {
        base + "\\"@ + name
    }
}

pub open spec fn is_letter(c: char) -> bool {
    ('a' <= c <= 'z') || ('A' <= c <= 'Z')
}

fn join_windows(base: &str, name: &str) -> (r: String)
    ensures
        r@ == windows_joined(base@, name@),
{
    let v = crate::text::to_chars(base);
    let n: usize = v.len();
    let mut r = base.to_string();
    let bare = n == 0 || v[n - 1] == '\\' || v[n - 1] == '/' || (n == 2 && v[1] == ':' && (('a'
        <= v[0] && v[0] <= 'z') || ('A' <= v[0] && v[0] <= 'Z')));
    if !bare {
        r.append("\\");
    }
    r.append(name);
    r
}

/// The browsers below a directory for programs.
pub open spec fn windows_browsers(root: Seq<char>) -> Seq<(Seq<char>, Seq<char>)> {
    seq![
        (
            "msedge"@,
            windows_joined(
                windows_joined(
                    windows_joined(windows_joined(root, "Microsoft"@), "Edge"@),
                    "Application"@,
                ),
                "msedge.exe"@,
            ),
        ),
        (
            "chrome"@,
            windows_joined(
                windows_joined(
                    windows_joined(windows_joined(root, "Google"@), "Chrome"@),
                    "Application"@,
                ),
                "chrome.exe"@,
            ),
        ),
    ]
}

/// The browsers below all directories for programs.
pub open spec fn all_windows_browsers(roots: Seq<Seq<char>>) -> Seq<(Seq<char>, Seq<char>)>
    decreases roots.len(),
{
    if roots.len() == 0 {
        Seq::empty()
    } else {
        all_windows_browsers(roots.drop_last()) + windows_browsers(roots.last())
    }
}

pub open spec fn mac_browsers() -> Seq<(Seq<char>, Seq<char>)> {
    seq![
        ("chrome"@, "/Applications/Google Chrome.app/Contents/MacOS/Google Chrome"@),
        ("msedge"@, "/Applications/Microsoft Edge.app/Contents/MacOS/Microsoft Edge"@),
        ("chromium"@, "/Applications/Chromium.app/Contents/MacOS/Chromium"@),
    ]
}

/// Commands that start a browser on Unix, each with the browser.
pub open spec fn unix_commands() -> Seq<(Seq<char>, Seq<char>)> {
    seq![
        ("chrome"@, "google-chrome"@),
        ("chrome"@, "google-chrome-stable"@),
        ("msedge"@, "microsoft-edge"@),
        ("msedge"@, "microsoft-edge-stable"@),
        ("chromium"@, "chromium"@),
        ("chromium"@, "chromium-browser"@),
    ]
}

/// Commands that start a browser anywhere, each with the browser.
pub open spec fn common_commands() -> Seq<(Seq<char>, Seq<char>)> {
    seq![
        ("msedge"@, "msedge"@),
        ("chrome"@, "chrome"@),
        ("chrome"@, "google-chrome"@),
        ("chromium"@, "chromium"@),
        ("chromium"@, "chromium-browser"@),
    ]
}

/// A command, and where it was found, if it was.
#[derive(Debug)]
pub struct FoundCommand {
    pub browser: String,
    pub command: String,
    pub path: Option<String>,
}

/// The browsers among the commands that were found.
pub open spec fn found_browsers(found: Seq<FoundCommand>) -> Seq<(Seq<char>, Seq<char>)>
    decreases found.len(),
{
    if found.len() == 0 {
        Seq::empty()
    } else {
        let before = found_browsers(found.drop_last());
        match found.last().path {
            Some(p) => before.push((found.last().browser@, p@)),
            None => before,
        }
    }
}

/// Whether a browser is at this path.
pub open spec fn is_at(known: Seq<(Seq<char>, Seq<char>)>, path: Seq<char>) -> bool {
    exists|i: int| 0 <= i < known.len() && (#[trigger] known[i]).1 == path
}

/// The known browsers, and those among the commands that are somewhere else.
pub open spec fn with_found(
    known: Seq<(Seq<char>, Seq<char>)>,
    found: Seq<FoundCommand>,
) -> Seq<(Seq<char>, Seq<char>)>
    decreases found.len(),
{
    if found.len() == 0 {
        known
    } else {
        let before = with_found(known, found.drop_last());
        match found.last().path {
            Some(p) => if is_at(before, p@) {
                before
            } else {
                before.push((found.last().browser@, p@))
            },
            None => before,
        }
    }
}

/// The browsers that there may be, the preferred ones first.
pub open spec fn candidates(
    platform: Platform,
    program_dirs: Seq<Seq<char>>,
    unix: Seq<FoundCommand>,
    common: Seq<FoundCommand>,
) -> Seq<(Seq<char>, Seq<char>)> {
    let native = match platform {
        Platform::Windows => all_windows_browsers(program_dirs),
        Platform::MacOs => mac_browsers(),
        Platform::Unix => found_browsers(unix),
        Platform::Other => Seq::empty(),
    };
    with_found(native, common)
}

pub open spec fn command_views(v: Seq<(&'static str, &'static str)>) -> Seq<
    (Seq<char>, Seq<char>),
> {
    v.map_values(|c: (&'static str, &'static str)| (c.0@, c.1@))
}

/// Commands to look for on Unix, each with the browser that it starts.
pub fn unix_browser_commands() -> (r: Vec<(&'static str, &'static str)>)
    ensures
        command_views(r@) == unix_commands(),
{
    let r: Vec<(&'static str, &'static str)> = vec![
        ("chrome", "google-chrome"),
        ("chrome", "google-chrome-stable"),
        ("msedge", "microsoft-edge"),
        ("msedge", "microsoft-edge-stable"),
        ("chromium", "chromium"),
        ("chromium", "chromium-browser"),
    ];
    assert(command_views(r@) =~= unix_commands());
    r
}

/// Commands to look for anywhere, each with the browser that it starts.
pub fn common_browser_commands() -> (r: Vec<(&'static str, &'static str)>)
    ensures
        command_views(r@) == common_commands(),
{
    let r: Vec<(&'static str, &'static str)> = vec![
        ("msedge", "msedge"),
        ("chrome", "chrome"),
        ("chrome", "google-chrome"),
        ("chromium", "chromium"),
        ("chromium", "chromium-browser"),
    ];
    assert(command_views(r@) =~= common_commands());
    r
}

fn windows_candidates(roots: &Vec<String>) -> (r: Vec<DiscoveredBrowser>)
    ensures
        browser_views(r@) == all_windows_browsers(views(roots@)),
{
    let ghost all = views(roots@);
    let mut r: Vec<DiscoveredBrowser> = Vec::new();
    let mut i: usize = 0;
    assert(all.take(0) =~= Seq::<Seq<char>>::empty());
    assert(browser_views(r@) =~= Seq::<(Seq<char>, Seq<char>)>::empty());
    while i < roots.len()
        invariant
            i <= roots@.len(),
            all == views(roots@),
            browser_views(r@) == all_windows_browsers(all.take(i as int)),
        decreases roots@.len() - i,
    {
        let ghost before = browser_views(r@);
        let root = roots[i].as_str();
        assert(all.take(i + 1).drop_last() =~= all.take(i as int));
        assert(all.take(i + 1).last() == root@);
        let edge = join_windows(
            join_windows(
                join_windows(join_windows(root, "Microsoft").as_str(), "Edge").as_str(),
                "Application",
            ).as_str(),
            "msedge.exe",
        );
        let chrome = join_windows(
            join_windows(
                join_windows(join_windows(root, "Google").as_str(), "Chrome").as_str(),
                "Application",
            ).as_str(),
            "chrome.exe",
        );
        let ghost e = edge@;
        let ghost c = chrome@;
        r.push(DiscoveredBrowser { id: "msedge".to_string(), path: edge });
        r.push(DiscoveredBrowser { id: "chrome".to_string(), path: chrome });
        assert(browser_views(r@) =~= before + seq![("msedge"@, e), ("chrome"@, c)]);
        i = i + 1;
    }
    assert(all.take(roots@.len() as int) =~= all);
    r
}

fn mac_candidates() -> (r: Vec<DiscoveredBrowser>)
    ensures
        browser_views(r@) == mac_browsers(),
{
    let r: Vec<DiscoveredBrowser> = vec![
        DiscoveredBrowser {
            id: "chrome".to_string(),
            path: "/Applications/Google Chrome.app/Contents/MacOS/Google Chrome".to_string(),
        },
        DiscoveredBrowser {
            id: "msedge".to_string(),
            path: "/Applications/Microsoft Edge.app/Contents/MacOS/Microsoft Edge".to_string(),
        },
        DiscoveredBrowser {
            id: "chromium".to_string(),
            path: "/Applications/Chromium.app/Contents/MacOS/Chromium".to_string(),
        },
    ];
    assert(browser_views(r@) =~= mac_browsers());
    r
}

fn unix_candidates(found: &Vec<FoundCommand>) -> (r: Vec<DiscoveredBrowser>)
    ensures
        browser_views(r@) == found_browsers(found@),
{
    let mut r: Vec<DiscoveredBrowser> = Vec::new();
    let mut i: usize = 0;
    assert(found@.take(0) =~= Seq::<FoundCommand>::empty());
    assert(browser_views(r@) =~= Seq::<(Seq<char>, Seq<char>)>::empty());
    while i < found.len()
        invariant
            i <= found@.len(),
            browser_views(r@) == found_browsers(found@.take(i as int)),
        decreases found@.len() - i,
    {
        let ghost before = browser_views(r@);
        assert(found@.take(i + 1).drop_last() =~= found@.take(i as int));
        match &found[i].path {
            Some(p) => {
                r.push(DiscoveredBrowser { id: found[i].browser.clone(), path: p.clone() });
                assert(browser_views(r@) =~= before.push((found@[i as int].browser@, p@)));
            },
            None => {},
        }
        i = i + 1;
    }
    assert(found@.take(found@.len() as int) =~= found@);
    r
}

fn has_path(known: &Vec<DiscoveredBrowser>, path: &str) -> (r: bool)
    ensures
        r == is_at(browser_views(known@), path@),
{
    let ghost all = browser_views(known@);
    let mut i: usize = 0;
    while i < known.len()
        invariant
            i <= known@.len(),
            all == browser_views(known@),
            forall|j: int| 0 <= j < i ==> (#[trigger] all[j]).1 != path@,
        decreases known@.len() - i,
    {
        assert(all[i as int] == (known@[i as int].id@, known@[i as int].path@));
        if str_eq(known[i].path.as_str(), path) {
            return true;
        }
        i = i + 1;
    }
    false
}

/// The browsers that there may be, the preferred ones first. On Windows they are looked for below
/// `program_dirs`; on Unix `unix` says where its commands were found; `common` says so of those
/// that are looked for anywhere.
pub fn browser_candidates(
    platform: Platform,
    program_dirs: &Vec<String>,
    unix: &Vec<FoundCommand>,
    common: &Vec<FoundCommand>,
) -> (r: Vec<DiscoveredBrowser>)
    ensures
        browser_views(r@) == candidates(platform, views(program_dirs@), unix@, common@),
{
    let mut r: Vec<DiscoveredBrowser> = match platform {
        Platform::Windows => windows_candidates(program_dirs),
        Platform::MacOs => mac_candidates(),
        Platform::Unix => unix_candidates(unix),
        Platform::Other => Vec::new(),
    };
    let ghost native = browser_views(r@);
    assert(platform is Other ==> native =~= Seq::<(Seq<char>, Seq<char>)>::empty());
    let mut i: usize = 0;
    assert(common@.take(0) =~= Seq::<FoundCommand>::empty());
    while i < common.len()
        invariant
            i <= common@.len(),
            browser_views(r@) == with_found(native, common@.take(i as int)),
        decreases common@.len() - i,
    {
        let ghost before = browser_views(r@);
        assert(common@.take(i + 1).drop_last() =~= common@.take(i as int));
        match &common[i].path {
            Some(p) => {
                if !has_path(&r, p.as_str()) {
                    r.push(DiscoveredBrowser { id: common[i].browser.clone(), path: p.clone() });
                    assert(browser_views(r@) =~= before.push((common@[i as int].browser@, p@)));
                }
            },
            None => {},
        }
        i = i + 1;
    }
    assert(common@.take(common@.len() as int) =~= common@);
    r
}

/// The first position, at `i` or behind it, at which something holds.
pub open spec fn first_true(flags: Seq<bool>, i: int) -> Option<int>
    decreases flags.len() - i,
{
    if i < 0 || i >= flags.len() {
        None
    } else if flags[i] {
        Some(i)
    } else {
        first_true(flags, i + 1)
    }
}

/// The first of the browsers that exists; `is_file` says for each whether it does.
pub fn discover_system_browser(candidates: &Vec<DiscoveredBrowser>, is_file: &Vec<bool>) -> (r:
    Option<DiscoveredBrowser>)
    requires
        candidates@.len() == is_file@.len(),
    ensures
        match first_true(is_file@, 0) {
            Some(i) => r == Some(candidates@[i]),
            None => r is None,
        },
{
    let mut i: usize = 0;
    while i < candidates.len()
        invariant
            i <= candidates@.len(),
            candidates@.len() == is_file@.len(),
            first_true(is_file@, i as int) == first_true(is_file@, 0),
        decreases candidates@.len() - i,
    {
        if is_file[i] {
            return Some(candidates[i].clone());
        }
        i = i + 1;
    }
    None
}

/// The preferences of the isolated browser: downloads go to their directory only, and are never
/// opened.
pub fn browser_preferences(download_dir: &str) -> (r: String)
    ensures
        r@ == "{\"download\":{\"default_directory\":"@ + json_quoted(
            replace(download_dir@, "\\"@, "/"@),
        )
            + ",\"directory_upgrade\":true,\"prompt_for_download\":false},\"profile\":{\"default_content_settings\":{\"automatic_downloads\":2},\"exit_type\":\"Normal\"},\"browser\":{\"check_default_browser\":false}}"@,
{
    proof {
        reveal_strlit("\\");
    }
    let mut r = "{\"download\":{\"default_directory\":".to_string();
    r.append(quote_json(replace_str(download_dir, "\\", "/").as_str()).as_str());
    r.append(
        ",\"directory_upgrade\":true,\"prompt_for_download\":false},\"profile\":{\"default_content_settings\":{\"automatic_downloads\":2},\"exit_type\":\"Normal\"},\"browser\":{\"check_default_browser\":false}}",
    );
    r
}

/// The arguments with which a browser shows a page and writes it out: with a profile of its own,
/// and downloads kept apart.
pub fn dump_dom_args(url: &str, profile_dir: &str, download_dir: &str) -> (r: Vec<String>)
    ensures
        views(r@) == seq![
            "--headless=new"@,
            "--disable-gpu"@,
            "--no-first-run"@,
            "--no-default-browser-check"@,
            "--disable-extensions"@,
            "--disable-popup-blocking"@,
            "--disable-background-networking"@,
            "--disable-sync"@,
            "--disable-translate"@,
            "--metrics-recording-only"@,
            "--safebrowsing-disable-auto-update"@,
            "--disable-features=TranslateUI,DownloadBubble"@,
            "--user-data-dir="@ + profile_dir@,
            "--download-default-directory="@ + download_dir@,
            "--virtual-time-budget=8000"@,
            "--dump-dom"@,
            url@,
        ],
{
    let mut profile = "--user-data-dir=".to_string();
    profile.append(profile_dir);
    let mut downloads = "--download-default-directory=".to_string();
    downloads.append(download_dir);
    let r: Vec<String> = vec![
        "--headless=new".to_string(),
        "--disable-gpu".to_string(),
        "--no-first-run".to_string(),
        "--no-default-browser-check".to_string(),
        "--disable-extensions".to_string(),
        "--disable-popup-blocking".to_string(),
        "--disable-background-networking".to_string(),
        "--disable-sync".to_string(),
        "--disable-translate".to_string(),
        "--metrics-recording-only".to_string(),
        "--safebrowsing-disable-auto-update".to_string(),
        "--disable-features=TranslateUI,DownloadBubble".to_string(),
        profile,
        downloads,
        "--virtual-time-budget=8000".to_string(),
        "--dump-dom".to_string(),
        url.to_string(),
    ];
    r
}

/// What has become of reading the output of the browser.
#[derive(Debug)]
pub enum ReaderEvent {
    /// Everything was read.
    Html(Vec<u8>),
    /// Reading failed.
    Failed(String),
    /// Nothing yet.
    Pending,
    /// The reader is gone.
    Disconnected,
}

/// What is done next while the browser runs.
#[derive(Debug)]
pub enum BrowserStep {
    /// Give up.
    Stop(BrowserError),
    /// Wait a little.
    Sleep,
    /// Wait for the browser to end, with this page.
    AwaitExit(Vec<u8>),
}

/// Whether a browser is started at all.
pub fn check_start(cancelled: bool) -> (r: Result<(), BrowserError>)
    ensures
        r is Err == cancelled,
        r matches Err(e) ==> e is Cancelled,
{
    if cancelled {
        Err(BrowserError::Cancelled)
    } else {
        Ok(())
    }
}

/// Decides what is done next while the browser runs.
pub fn browser_step(
    cancelled: bool,
    elapsed: Millis,
    timeout: Millis,
    event: ReaderEvent,
) -> (r: BrowserStep)
    ensures
        if cancelled {
            r matches BrowserStep::Stop(BrowserError::Cancelled)
        } else if elapsed >= timeout {
            r matches BrowserStep::Stop(BrowserError::Timeout)
        } else {
            match event {
                ReaderEvent::Html(html) => r == BrowserStep::AwaitExit(html),
                ReaderEvent::Failed(e) => r == BrowserStep::Stop(BrowserError::Failed(e)),
                ReaderEvent::Pending => r is Sleep,
                ReaderEvent::Disconnected => r matches BrowserStep::Stop(BrowserError::Failed(e))
                    && e@ == "stdout reader exited early"@,
            }
        },
{
    if cancelled {
        return BrowserStep::Stop(BrowserError::Cancelled);
    }
    if elapsed >= timeout {
        return BrowserStep::Stop(BrowserError::Timeout);
    }
    match event {
        ReaderEvent::Html(html) => BrowserStep::AwaitExit(html),
        ReaderEvent::Failed(e) => BrowserStep::Stop(BrowserError::Failed(e)),
        ReaderEvent::Pending => BrowserStep::Sleep,
        ReaderEvent::Disconnected => BrowserStep::Stop(
            BrowserError::Failed("stdout reader exited early".to_string()),
        ),
    }
}

/// How the browser ended: whether it succeeded, how its status is written, and what it said.
#[derive(Debug)]
pub struct BrowserExit {
    pub success: bool,
    pub status: String,
    pub stderr: String,
}

/// What comes of a page once the browser has ended. A page counts even where the browser failed,
/// if there is any of it to speak of.
pub fn browser_result(
    request: &BrowserFetchRequest,
    browser_id: &str,
    html: Vec<u8>,
    exit: &Result<BrowserExit, String>,
) -> (r: Result<BrowserFetchResult, BrowserError>)
    ensures
        match exit {
            Err(e) => r matches Err(BrowserError::Failed(m)) && m@ == e@,
            Ok(x) => if html@.len() < 16 && !x.success {
                r matches Err(BrowserError::Failed(m)) && m@ == "exit="@ + x.status@ + " stderr="@
                    + ellipsized(x.stderr@, 400)
            } else {
                r matches Ok(p) && p.html@ == html@ && p.final_url@ == request.url@
                    && p.browser_id@ == browser_id@
            },
        },
{
    match exit {
        Err(e) => Err(BrowserError::Failed(e.clone())),
        Ok(x) => {
            if html.len() < 16 && !x.success {
                let mut m = "exit=".to_string();
                m.append(x.status.as_str());
                m.append(" stderr=");
                m.append(ellipsize(x.stderr.as_str(), 400).as_str());
                return Err(BrowserError::Failed(m));
            }
            Ok(
                BrowserFetchResult {
                    final_url: request.url.clone(),
                    html,
                    browser_id: browser_id.to_string(),
                },
            )
        },
    }
}

/// Whether no two browsers are at one path.
pub open spec fn places_differ(known: Seq<(Seq<char>, Seq<char>)>) -> bool {
    forall|i: int, j: int|
        0 <= i < j < known.len() ==> (#[trigger] known[i]).1 != (#[trigger] known[j]).1
}

/// The commands that were found anywhere put no browser beside another one at the same path.
pub proof fn lemma_found_commands_add_no_place_twice(
    known: Seq<(Seq<char>, Seq<char>)>,
    found: Seq<FoundCommand>,
)
    requires
        places_differ(known),
    ensures
        places_differ(with_found(known, found)),
    decreases found.len(),
{
    if found.len() > 0 {
        lemma_found_commands_add_no_place_twice(known, found.drop_last());
        let before = with_found(known, found.drop_last());
        let after = with_found(known, found);
        assert forall|i: int, j: int| 0 <= i < j < after.len() implies (#[trigger] after[i]).1 != (
        #[trigger] after[j]).1 by {
            if j < before.len() {
                assert(before[i].1 != before[j].1);
            } else {
                assert(after[i] == before[i]);
            }
        }
    }
}

} // verus!

//! Finding audio plugins: where to look, and what a plugin file is taken
//! for from its name.
use vstd::prelude::*;

verus! {

/// Plugin formats
#[derive(Debug, Clone, Copy, PartialEq, Eq, Structural)]
pub enum PluginFormat {
    /// VST3
    Vst3,
    /// CLAP
    Clap,
    /// Audio Unit (macOS only)
    AudioUnit,
}

/// What is known of a plugin
#[derive(Debug)]
pub struct PluginInfo {
    pub name: String,
    pub vendor: String,
    pub version: String,
    pub format: PluginFormat,
    pub path: String,
    pub uid: String,
    pub num_inputs: u32,
    pub num_outputs: u32,
    pub has_editor: bool,
}

/// Version of the CLAP interface
#[derive(Debug, Clone, Copy, PartialEq, Eq, Structural)]
pub struct ClapVersion {
    pub major: u32,
    pub minor: u32,
    pub revision: u32,
}

/// What a CLAP plugin's process call reports
#[derive(Debug, Clone, Copy, PartialEq, Eq, Structural)]
pub enum ClapProcessStatus {
    Error,
    Continue,
    ContinueIfNotQuiet,
    Tail,
    Sleep,
}

impl ClapProcessStatus {
    /// The status with the given code in the CLAP interface.
    pub fn from_code(code: i32) -> (r: Option<Self>)
        ensures
            r == clap_status_of(code),
    {
        match code {
            0 => Some(ClapProcessStatus::Error),
            1 => Some(ClapProcessStatus::Continue),
            2 => Some(ClapProcessStatus::ContinueIfNotQuiet),
            3 => Some(ClapProcessStatus::Tail),
            4 => Some(ClapProcessStatus::Sleep),
            _ => None,
        }
    }
}

pub open spec fn clap_status_of(code: i32) -> Option<ClapProcessStatus> {
    if code == 0 {
        Some(ClapProcessStatus::Error)
    } else if code == 1 {
        Some(ClapProcessStatus::Continue)
    } else if code == 2 {
        Some(ClapProcessStatus::ContinueIfNotQuiet)
    } else if code == 3 {
        Some(ClapProcessStatus::Tail)
    } else if code == 4 {
        Some(ClapProcessStatus::Sleep)
    } else {
        None
    }
}

/// Whether `pat` occurs in `s`.
pub open spec fn occurs_in(s: Seq<char>, pat: Seq<char>) -> bool {
    exists|i: int| 0 <= i && i + pat.len() <= s.len() && #[trigger] s.subrange(i, i + pat.len()) == pat
}

/// Whether `pat` occurs in `s`.
pub fn contains_text(s: &str, pat: &str) -> (r: bool)
    ensures
        r == occurs_in(s@, pat@),
{
    let n = s.unicode_len();
    let m = pat.unicode_len();
    if m > n {
        return false;
    }
    let mut i: usize = 0;
    while i <= n - m
        invariant
            n == s@.len(),
            m == pat@.len(),
            m <= n,
            i <= n - m + 1,
            forall|k: int| 0 <= k < i ==> #[trigger] s@.subrange(k, k + m) != pat@,
        decreases n - m + 1 - i,
    {
        let mut j: usize = 0;
        let mut same = true;
        while j < m
            invariant
                n == s@.len(),
                m == pat@.len(),
                i + m <= n,
                j <= m,
                same <==> forall|t: int| 0 <= t < j ==> s@[i + t] == pat@[t],
            decreases m - j,
        {
            if s.get_char(i + j) != pat.get_char(j) {
                same = false;
            }
            j = j + 1;
        }
        if same {
            assert(s@.subrange(i as int, i + m) =~= pat@);
            return true;
        }
        assert(s@.subrange(i as int, i + m) != pat@) by {
            let t = choose|t: int| 0 <= t < m && s@[i + t] != pat@[t];
            assert(s@.subrange(i as int, i + m)[t] != pat@[t]);
        }
        i = i + 1;
    }
    assert forall|k: int| 0 <= k && k + m <= n implies #[trigger] s@.subrange(k, k + m) != pat@ by {
        assert(k < i);
    }
    false
}

/// The operating system the library runs on, where that changes what it
/// does.
#[derive(Debug, Clone, Copy, PartialEq, Eq, Structural)]
pub enum TargetOs {
    Linux,
    MacOs,
    Windows,
    /// Any other system
    Other,
}

/// The format of a plugin file from its extension. On Linux a shared
/// library counts too, when its path names a CLAP or VST3 folder.
pub open spec fn plugin_format(extension: Seq<char>, path: Seq<char>, target: TargetOs) -> Option<
    PluginFormat,
> {
    if extension == "vst3"@ {
        Some(PluginFormat::Vst3)
    } else if extension == "clap"@ {
        Some(PluginFormat::Clap)
    } else if extension == "component"@ {
        Some(PluginFormat::AudioUnit)
    } else if extension == "so"@ && target == TargetOs::Linux {
        if occurs_in(path, "clap"@) || occurs_in(path, "CLAP"@) {
            Some(PluginFormat::Clap)
        } else if occurs_in(path, "vst3"@) || occurs_in(path, "VST3"@) {
            Some(PluginFormat::Vst3)
        } else {
            None
        }
    } else {
        None
    }
}

/// The format of the plugin file at `path` with extension `extension`, on
/// `target`.
pub fn format_for(extension: &str, path: &str, target: TargetOs) -> (r: Option<PluginFormat>)
    ensures
        r == plugin_format(extension@, path@, target),
{
    if crate::text::same_text(extension, "vst3") {
        Some(PluginFormat::Vst3)
    } else if crate::text::same_text(extension, "clap") {
        Some(PluginFormat::Clap)
    } else if crate::text::same_text(extension, "component") {
        Some(PluginFormat::AudioUnit)
    } else if crate::text::same_text(extension, "so") && target == TargetOs::Linux {
        if contains_text(path, "clap") || contains_text(path, "CLAP") {
            Some(PluginFormat::Clap)
        } else if contains_text(path, "vst3") || contains_text(path, "VST3") {
            Some(PluginFormat::Vst3)
        } else {
            None
        }
    } else {
        None
    }
}

/// Why a plugin file with extension `extension` cannot be loaded: CLAP
/// libraries (`clap`, `so`) can; VST3 loading is not there yet, and other
/// formats are unknown.
pub open spec fn load_refusal(extension: Seq<char>) -> Option<Seq<char>> {
    if extension == "clap"@ || extension == "so"@ {
        None
    } else if extension == "vst3"@ {
        Some("VST3 plugin loading not yet implemented"@)
    } else {
        Some("Unknown plugin format: "@ + extension)
    }
}

/// Why the plugin file with extension `extension` cannot be loaded, if it
/// cannot.
pub fn plugin_load_refusal(extension: &str) -> (r: Option<String>)
    ensures
        match r {
            Some(m) => load_refusal(extension@) == Some(m@),
            None => load_refusal(extension@) is None,
        },
{
    if crate::text::same_text(extension, "clap") || crate::text::same_text(extension, "so") {
        None
    } else if crate::text::same_text(extension, "vst3") {
        Some("VST3 plugin loading not yet implemented".to_string())
    } else {
        Some("Unknown plugin format: ".to_string().concat(extension))
    }
}

/// The extension `std::path::Path::extension` finds in `path`, when it has
/// one and it is valid text.
pub uninterp spec fn extension_of(path: Seq<char>) -> Option<Seq<char>>;

/// The file stem `std::path::Path::file_stem` finds in `path`, when it has
/// one and it is valid text.
pub uninterp spec fn file_stem_of(path: Seq<char>) -> Option<Seq<char>>;

/// `std::path::Path::extension` of `path`, as text.
#[verifier::external_body]
fn path_extension(path: &str) -> (r: Option<String>)
    ensures
        match r {
            Some(e) => extension_of(path@) == Some(e@),
            None => extension_of(path@) is None,
        },
{
    std::path::Path::new(path).extension().and_then(|e| e.to_str()).map(|e| e.to_string())
}

/// `std::path::Path::file_stem` of `path`, as text.
#[verifier::external_body]
fn path_file_stem(path: &str) -> (r: Option<String>)
    ensures
        match r {
            Some(e) => file_stem_of(path@) == Some(e@),
            None => file_stem_of(path@) is None,
        },
{
    std::path::Path::new(path).file_stem().and_then(|e| e.to_str()).map(|e| e.to_string())
}

/// `path` names no plugin on `target`: it has no extension, no plugin
/// format, or no file stem.
pub open spec fn no_plugin_at(path: Seq<char>, target: TargetOs) -> bool {
    extension_of(path) is None || plugin_format(extension_of(path)->0, path, target) is None
        || file_stem_of(path) is None
}

/// `info` is what the name of the plugin file at `path` tells on `target`:
/// its format, and its file stem as name and id, with placeholders for the
/// rest.
pub open spec fn is_basic_info(path: Seq<char>, target: TargetOs, info: PluginInfo) -> bool {
    &&& extension_of(path) matches Some(ext)
    &&& plugin_format(ext, path, target) == Some(info.format)
    &&& file_stem_of(path) == Some(info.name@)
    &&& info.uid@ == info.name@
    &&& info.vendor@ == "Unknown"@
    &&& info.version@ == "1.0.0"@
    &&& info.path@ == path
    &&& info.num_inputs == 2 && info.num_outputs == 2 && info.has_editor
}

/// What is known of the plugin file at `path` from its name alone: its
/// format on `target`, and its file stem as name and id, with placeholders
/// for the rest.
pub fn basic_plugin_info(path: &str, target: TargetOs) -> (r: Option<PluginInfo>)
    ensures
        match r {
            Some(info) => is_basic_info(path@, target, info),
            None => no_plugin_at(path@, target),
        },
{
    let extension = path_extension(path)?;
    let format = format_for(extension.as_str(), path, target)?;
    let name = path_file_stem(path)?;
    Some(
        PluginInfo {
            uid: name.clone(),
            name,
            vendor: "Unknown".to_string(),
            version: "1.0.0".to_string(),
            format,
            path: path.to_string(),
            num_inputs: 2,
            num_outputs: 2,
            has_editor: true,
        },
    )
}

/// `path` names a CLAP plugin on `target`.
pub open spec fn clap_at(path: Seq<char>, target: TargetOs) -> bool {
    &&& extension_of(path) matches Some(ext)
    &&& plugin_format(ext, path, target) == Some(PluginFormat::Clap)
    &&& file_stem_of(path) is Some
}

/// What the scanner records of the plugin file at `path` on `target`. For a
/// CLAP plugin, `loaded` is what loading the library and asking it for its
/// first descriptor gave (`None` when that failed); it is taken when there
/// is one. Otherwise the name tells what is known.
pub fn scan_plugin(path: &str, target: TargetOs, loaded: Option<PluginInfo>) -> (r: Option<
    PluginInfo,
>)
    ensures
        match r {
            Some(info) => if clap_at(path@, target) && loaded is Some {
                loaded == Some(info)
            } else {
                is_basic_info(path@, target, info)
            },
            None => no_plugin_at(path@, target),
        },
{
    let basic = basic_plugin_info(path, target)?;
    if basic.format == PluginFormat::Clap {
        if let Some(desc) = loaded {
            assert(is_basic_info(path@, target, basic));
            return Some(desc);
        }
    }
    Some(basic)
}

/// The folders searched for plugins on Linux, under the home folder `home`
/// when it is known: VST3 folders first, then CLAP folders.
pub open spec fn linux_plugin_paths(home: Option<Seq<char>>) -> Seq<Seq<char>> {
    let vst3_home = match home {
        Some(h) => seq![h + "/.vst3"@],
        None => Seq::empty(),
    };
    let clap_home = match home {
        Some(h) => seq![h + "/.clap"@],
        None => Seq::empty(),
    };
    vst3_home + seq!["/usr/lib/vst3"@, "/usr/local/lib/vst3"@] + clap_home + seq![
        "/usr/lib/clap"@,
        "/usr/local/lib/clap"@,
    ]
}

pub open spec fn texts(v: Seq<String>) -> Seq<Seq<char>> {
    v.map_values(|s: String| s@)
}

/// `dir` under the home folder `home`, when it is known.
pub open spec fn under_home(home: Option<Seq<char>>, dir: Seq<char>) -> Seq<Seq<char>> {
    match home {
        Some(h) => seq![h + dir],
        None => Seq::empty(),
    }
}

/// The folders searched for plugins on macOS: for VST3, CLAP and Audio
/// Units in turn, the system folder and then the one under the home folder.
pub open spec fn macos_plugin_paths(home: Option<Seq<char>>) -> Seq<Seq<char>> {
    seq!["/Library/Audio/Plug-Ins/VST3"@] + under_home(home, "/Library/Audio/Plug-Ins/VST3"@) + seq![
        "/Library/Audio/Plug-Ins/CLAP"@,
    ] + under_home(home, "/Library/Audio/Plug-Ins/CLAP"@) + seq!["/Library/Audio/Plug-Ins/Components"@]
        + under_home(home, "/Library/Audio/Plug-Ins/Components"@)
}

/// The folders searched for plugins on Windows: the VST3 folders, then the
/// CLAP folders, of both program file trees.
pub open spec fn windows_plugin_paths() -> Seq<Seq<char>> {
    seq![
        "C:\\Program Files\\Common Files\\VST3"@,
        "C:\\Program Files (x86)\\Common Files\\VST3"@,
        "C:\\Program Files\\Common Files\\CLAP"@,
        "C:\\Program Files (x86)\\Common Files\\CLAP"@,
    ]
}

/// The folders searched for plugins on `target`; none on other systems.
pub open spec fn plugin_paths(home: Option<Seq<char>>, target: TargetOs) -> Seq<Seq<char>> {
    match target {
        TargetOs::Linux => linux_plugin_paths(home),
        TargetOs::MacOs => macos_plugin_paths(home),
        TargetOs::Windows => windows_plugin_paths(),
        TargetOs::Other => Seq::empty(),
    }
}

/// Appends `dir` under the home folder, when it is known.
fn push_under_home(paths: &mut Vec<String>, home: Option<&str>, dir: &str)
    ensures
        texts(final(paths)@) == texts(old(paths)@) + under_home(
            match home {
                Some(h) => Some(h@),
                None => None,
            },
            dir@,
        ),
{
    let ghost before = texts(paths@);
    if let Some(h) = home {
        paths.push(h.to_string().concat(dir));
        assert(texts(paths@) =~= before + seq![h@ + dir@]);
    } else {
        assert(texts(paths@) =~= before + Seq::<Seq<char>>::empty());
    }
}

/// Appends `dir`.
fn push_path(paths: &mut Vec<String>, dir: &str)
    ensures
        texts(final(paths)@) == texts(old(paths)@) + seq![dir@],
{
    let ghost before = texts(paths@);
    paths.push(dir.to_string());
    assert(texts(paths@) =~= before + seq![dir@]);
}

/// The default plugin folders on `target`, for the home folder `home`.
pub fn default_plugin_paths(home: Option<&str>, target: TargetOs) -> (r: Vec<String>)
    ensures
        texts(r@) == plugin_paths(
            match home {
                Some(h) => Some(h@),
                None => None,
            },
            target,
        ),
{
    let ghost hv = match home {
        Some(h) => Some(h@),
        None => None,
    };
    let mut paths: Vec<String> = Vec::new();
    assert(texts(paths@) =~= Seq::<Seq<char>>::empty());
    match target {
        TargetOs::Linux => {
            push_under_home(&mut paths, home, "/.vst3");
            push_path(&mut paths, "/usr/lib/vst3");
            push_path(&mut paths, "/usr/local/lib/vst3");
            push_under_home(&mut paths, home, "/.clap");
            push_path(&mut paths, "/usr/lib/clap");
            push_path(&mut paths, "/usr/local/lib/clap");
            assert(texts(paths@) =~= linux_plugin_paths(hv));
        },
        TargetOs::MacOs => {
            push_path(&mut paths, "/Library/Audio/Plug-Ins/VST3");
            push_under_home(&mut paths, home, "/Library/Audio/Plug-Ins/VST3");
            push_path(&mut paths, "/Library/Audio/Plug-Ins/CLAP");
            push_under_home(&mut paths, home, "/Library/Audio/Plug-Ins/CLAP");
            push_path(&mut paths, "/Library/Audio/Plug-Ins/Components");
            push_under_home(&mut paths, home, "/Library/Audio/Plug-Ins/Components");
            assert(texts(paths@) =~= macos_plugin_paths(hv));
        },
        TargetOs::Windows => {
            push_path(&mut paths, "C:\\Program Files\\Common Files\\VST3");
            push_path(&mut paths, "C:\\Program Files (x86)\\Common Files\\VST3");
            push_path(&mut paths, "C:\\Program Files\\Common Files\\CLAP");
            push_path(&mut paths, "C:\\Program Files (x86)\\Common Files\\CLAP");
            assert(texts(paths@) =~= windows_plugin_paths());
        },
        TargetOs::Other => {},
    }
    paths
}

/// The folders to search for plugins.
#[derive(Debug)]
pub struct PluginScanner {
    search_paths: Vec<String>,
}

impl View for PluginScanner {
    type V = Seq<Seq<char>>;

    closed spec fn view(&self) -> Seq<Seq<char>> {
        texts(self.search_paths@)
    }
}

impl PluginScanner {
    /// A scanner of the default folders of `target` under the home folder
    /// `home`.
    pub fn new(home: Option<&str>, target: TargetOs) -> (s: Self)
        ensures
            s@ == plugin_paths(
                match home {
                    Some(h) => Some(h@),
                    None => None,
                },
                target,
            ),
    {
        PluginScanner { search_paths: default_plugin_paths(home, target) }
    }

    /// Adds a folder to search, after the others.
    pub fn add_search_path(&mut self, path: &str)
        ensures
            final(self)@ == old(self)@.push(path@),
    {
        let ghost before = self@;
        self.search_paths.push(path.to_string());
        assert(self@ =~= before.push(path@));
    }

    /// The folders to search, in order.
    pub fn search_paths(&self) -> (r: &Vec<String>)
        ensures
            texts(r@) == self@,
    {
        &self.search_paths
    }
}

} // verus!

//! Application settings: audio presets, the saved configuration and its
//! rules, and the history of rooms joined.
use vstd::prelude::*;
use crate::text::{decimal, write_decimal, has_prefix, same_text, starts_with_text, trim_text, trimmed, utf8_len};

verus! {

/// Default buffer size in samples (64 samples @ 48kHz = 1.33ms)
pub const DEFAULT_BUFFER_SIZE: u32 = 64;

/// Most entries the connection history keeps
pub const MAX_HISTORY_ENTRIES: usize = 10;

/// Most bytes a peer name may have
pub const MAX_PEER_NAME_BYTES: usize = 32;

/// Audio presets, from lowest latency to highest quality.
#[derive(Debug, Clone, Copy, PartialEq, Eq, Structural)]
pub enum AudioPreset {
    /// For fiber connections: no jitter buffer, 32 samples
    ZeroLatency,
    /// For a LAN: 1 frame of jitter buffer, 64 samples
    UltraLowLatency,
    /// For typical internet: 4 frames of jitter buffer, 128 samples
    Balanced,
    /// For recording: 8 frames of jitter buffer, 256 samples
    HighQuality,
}

impl Default for AudioPreset {
    fn default() -> (r: Self)
        ensures
            r == AudioPreset::Balanced,
    {
        AudioPreset::Balanced
    }
}

pub open spec fn preset_buffer_size(p: AudioPreset) -> u32 {
    match p {
        AudioPreset::ZeroLatency => 32,
        AudioPreset::UltraLowLatency => 64,
        AudioPreset::Balanced => 128,
        AudioPreset::HighQuality => 256,
    }
}

pub open spec fn preset_jitter_frames(p: AudioPreset) -> u32 {
    match p {
        AudioPreset::ZeroLatency => 0,
        AudioPreset::UltraLowLatency => 1,
        AudioPreset::Balanced => 4,
        AudioPreset::HighQuality => 8,
    }
}

pub open spec fn preset_name(p: AudioPreset) -> Seq<char> {
    match p {
        AudioPreset::ZeroLatency => "zero-latency"@,
        AudioPreset::UltraLowLatency => "ultra-low-latency"@,
        AudioPreset::Balanced => "balanced"@,
        AudioPreset::HighQuality => "high-quality"@,
    }
}

/// The preset whose name is `s`.
pub open spec fn preset_named(s: Seq<char>) -> Option<AudioPreset> {
    if s == "zero-latency"@ {
        Some(AudioPreset::ZeroLatency)
    } else if s == "ultra-low-latency"@ {
        Some(AudioPreset::UltraLowLatency)
    } else if s == "balanced"@ {
        Some(AudioPreset::Balanced)
    } else if s == "high-quality"@ {
        Some(AudioPreset::HighQuality)
    } else {
        None
    }
}

/// The presets in order.
pub open spec fn all_presets() -> Seq<AudioPreset> {
    seq![
        AudioPreset::ZeroLatency,
        AudioPreset::UltraLowLatency,
        AudioPreset::Balanced,
        AudioPreset::HighQuality,
    ]
}

impl AudioPreset {
    /// The buffer size the preset recommends, in samples.
    pub fn buffer_size(&self) -> (r: u32)
        ensures
            r == preset_buffer_size(*self),
    {
        match self {
            AudioPreset::ZeroLatency => 32,
            AudioPreset::UltraLowLatency => 64,
            AudioPreset::Balanced => 128,
            AudioPreset::HighQuality => 256,
        }
    }

    /// The jitter buffer depth the preset recommends, in frames.
    pub fn jitter_buffer_frames(&self) -> (r: u32)
        ensures
            r == preset_jitter_frames(*self),
    {
        match self {
            AudioPreset::ZeroLatency => 0,
            AudioPreset::UltraLowLatency => 1,
            AudioPreset::Balanced => 4,
            AudioPreset::HighQuality => 8,
        }
    }

    /// The name the preset is saved under.
    pub fn name(&self) -> (r: &'static str)
        ensures
            r@ == preset_name(*self),
    {
        match self {
            AudioPreset::ZeroLatency => "zero-latency",
            AudioPreset::UltraLowLatency => "ultra-low-latency",
            AudioPreset::Balanced => "balanced",
            AudioPreset::HighQuality => "high-quality",
        }
    }

    /// The preset saved under `name`, if any.
    pub fn from_name(name: &str) -> (r: Option<Self>)
        ensures
            r == preset_named(name@),
    {
        if same_text(name, "zero-latency") {
            Some(AudioPreset::ZeroLatency)
        } else if same_text(name, "ultra-low-latency") {
            Some(AudioPreset::UltraLowLatency)
        } else if same_text(name, "balanced") {
            Some(AudioPreset::Balanced)
        } else if same_text(name, "high-quality") {
            Some(AudioPreset::HighQuality)
        } else {
            None
        }
    }

    /// All presets, from lowest latency to highest quality.
    pub fn all() -> (r: Vec<Self>)
        ensures
            r@ == all_presets(),
    {
        let r = vec![
            AudioPreset::ZeroLatency,
            AudioPreset::UltraLowLatency,
            AudioPreset::Balanced,
            AudioPreset::HighQuality,
        ];
        assert(r@ =~= all_presets());
        r
    }
}

/// Each preset is found again under its name, and the buffer sizes grow
/// with the jitter buffer depth from one preset to the next.
pub proof fn lemma_preset_name_roundtrip(p: AudioPreset)
    ensures
        preset_named(preset_name(p)) == Some(p),
{
    reveal_strlit("zero-latency");
    reveal_strlit("ultra-low-latency");
    reveal_strlit("balanced");
    reveal_strlit("high-quality");
    assert("zero-latency"@ != "ultra-low-latency"@ && "zero-latency"@ != "balanced"@
        && "zero-latency"@ != "high-quality"@ && "ultra-low-latency"@ != "balanced"@
        && "ultra-low-latency"@ != "high-quality"@ && "balanced"@ != "high-quality"@) by {
        assert("zero-latency"@.len() != "ultra-low-latency"@.len());
        assert("zero-latency"@[0] != "balanced"@[0]);
        assert("zero-latency"@[0] != "high-quality"@[0]);
        assert("ultra-low-latency"@[0] != "balanced"@[0]);
        assert("ultra-low-latency"@[0] != "high-quality"@[0]);
        assert("balanced"@[0] != "high-quality"@[0]);
    }
}

/// The presets' recommendations rise from one preset to the next.
pub proof fn lemma_presets_ordered(i: int, j: int)
    requires
        0 <= i < j < 4,
    ensures
        preset_buffer_size(all_presets()[i]) < preset_buffer_size(all_presets()[j]),
        preset_jitter_frames(all_presets()[i]) < preset_jitter_frames(all_presets()[j]),
{
}

/// What the settings screen shows of a preset.
#[derive(Debug)]
pub struct PresetInfo {
    /// The preset's name, such as "zero-latency"
    pub id: String,
    /// Recommended buffer size in samples
    pub buffer_size: u32,
    /// Recommended jitter buffer frames
    pub jitter_buffer_frames: u32,
}

impl PresetInfo {
    /// The description of `preset`.
    pub fn of(preset: AudioPreset) -> (r: Self)
        ensures
            r.id@ == preset_name(preset),
            r.buffer_size == preset_buffer_size(preset),
            r.jitter_buffer_frames == preset_jitter_frames(preset),
    {
        PresetInfo {
            id: preset.name().to_string(),
            buffer_size: preset.buffer_size(),
            jitter_buffer_frames: preset.jitter_buffer_frames(),
        }
    }
}

/// The descriptions of all presets, in order.
pub fn list_presets() -> (r: Vec<PresetInfo>)
    ensures
        r@.len() == 4,
        forall|i: int|
            0 <= i < 4 ==> (#[trigger] r@[i]).id@ == preset_name(all_presets()[i])
                && r@[i].buffer_size == preset_buffer_size(all_presets()[i])
                && r@[i].jitter_buffer_frames == preset_jitter_frames(all_presets()[i]),
{
    let presets = AudioPreset::all();
    let mut out: Vec<PresetInfo> = Vec::new();
    let mut i: usize = 0;
    while i < presets.len()
        invariant
            presets@ == all_presets(),
            i <= 4,
            out@.len() == i,
            forall|k: int|
                0 <= k < i ==> (#[trigger] out@[k]).id@ == preset_name(all_presets()[k])
                    && out@[k].buffer_size == preset_buffer_size(all_presets()[k])
                    && out@[k].jitter_buffer_frames == preset_jitter_frames(all_presets()[k]),
        decreases presets.len() - i,
    {
        out.push(PresetInfo::of(presets[i]));
        i = i + 1;
    }
    out
}

/// Buffer sizes the audio path accepts: 32, 64, 128 or 256 samples.
pub open spec fn valid_buffer_size(size: u32) -> bool {
    size == 32 || size == 64 || size == 128 || size == 256
}

/// Whether `size` is an accepted buffer size.
pub fn is_valid_buffer_size(size: u32) -> (r: bool)
    ensures
        r == valid_buffer_size(size),
{
    size == 32 || size == 64 || size == 128 || size == 256
}

/// The refusal of a buffer size.
pub open spec fn buffer_size_refusal(size: u32) -> Seq<char> {
    "Invalid buffer size: "@ + decimal(size as nat) + ". Valid values are 32, 64, 128, 256"@
}

/// The refusal of a buffer size.
fn format_buffer_size_refusal(size: u32) -> (r: String)
    ensures
        r@ == buffer_size_refusal(size),
{
    let mut r = String::from_str("Invalid buffer size: ");
    write_decimal(size as u64, &mut r);
    r.append(". Valid values are 32, 64, 128, 256");
    r
}

/// Checks a buffer size.
pub fn check_buffer_size(size: u32) -> (r: Result<(), String>)
    ensures
        r is Ok <==> valid_buffer_size(size),
        r matches Err(m) ==> m@ == buffer_size_refusal(size),
{
    if is_valid_buffer_size(size) {
        Ok(())
    } else {
        Err(format_buffer_size_refusal(size))
    }
}

/// A point in time: whole seconds since the Unix epoch and nanoseconds.
#[derive(Debug, Clone, Copy, PartialEq, Eq, Structural)]
pub struct Timestamp {
    pub secs: i64,
    pub nanos: u32,
}

/// `chrono::Utc::now`, as seconds and nanoseconds since the Unix epoch.
#[verifier::external_body]
fn utc_now() -> Timestamp {
    let now = chrono::Utc::now();
    Timestamp { secs: now.timestamp(), nanos: now.timestamp_subsec_nanos() }
}

/// A room joined in the past, for quick reconnection.
#[derive(Debug)]
pub struct ConnectionHistoryEntry {
    /// Room code used for the connection
    pub room_code: String,
    /// When the connection was made
    pub connected_at: Timestamp,
    /// Optional user-defined label
    pub label: Option<String>,
}

/// A history entry as plain values.
pub struct EntryModel {
    pub room_code: Seq<char>,
    pub connected_at: Timestamp,
    pub label: Option<Seq<char>>,
}

pub open spec fn opt_text(o: Option<String>) -> Option<Seq<char>> {
    match o {
        Some(s) => Some(s@),
        None => None,
    }
}

impl Clone for ConnectionHistoryEntry {
    fn clone(&self) -> (r: Self)
        ensures
            r@ == self@,
    {
        let label = match &self.label {
            Some(l) => Some(l.clone()),
            None => None,
        };
        ConnectionHistoryEntry {
            room_code: self.room_code.clone(),
            connected_at: self.connected_at,
            label,
        }
    }
}

impl View for ConnectionHistoryEntry {
    type V = EntryModel;

    open spec fn view(&self) -> EntryModel {
        EntryModel {
            room_code: self.room_code@,
            connected_at: self.connected_at,
            label: opt_text(self.label),
        }
    }
}

pub open spec fn history_view(h: Seq<ConnectionHistoryEntry>) -> Seq<EntryModel> {
    h.map_values(|e: ConnectionHistoryEntry| e@)
}

/// The entries of `h` whose room code is not `code`, in order.
pub open spec fn without_room(h: Seq<EntryModel>, code: Seq<char>) -> Seq<EntryModel>
    decreases h.len(),
{
    if h.len() == 0 {
        Seq::empty()
    } else {
        let rest = without_room(h.drop_last(), code);
        if h.last().room_code == code {
            rest
        } else {
            rest.push(h.last())
        }
    }
}

/// The history after a connection to `e.room_code`: `e` first, then the
/// entries for other rooms, at most `MAX_HISTORY_ENTRIES` in all.
pub open spec fn history_with(h: Seq<EntryModel>, e: EntryModel) -> Seq<EntryModel> {
    let all = seq![e] + without_room(h, e.room_code);
    if all.len() > MAX_HISTORY_ENTRIES {
        all.subrange(0, MAX_HISTORY_ENTRIES as int)
    } else {
        all
    }
}

/// The first entry of `h` for room `code`, or -1.
pub open spec fn entry_for(h: Seq<EntryModel>, code: Seq<char>) -> int {
    if exists|i: int| 0 <= i < h.len() && (#[trigger] h[i]).room_code == code {
        choose|i: int|
            0 <= i < h.len() && h[i].room_code == code && forall|j: int|
                0 <= j < i ==> (#[trigger] h[j]).room_code != code
    } else {
        -1
    }
}

/// The application's saved settings.
#[derive(Debug)]
pub struct AppConfig {
    /// Selected input device (None = system default)
    pub input_device_id: Option<String>,
    /// Selected output device (None = system default)
    pub output_device_id: Option<String>,
    /// Audio buffer size in samples: 32, 64, 128 or 256
    pub buffer_size: u32,
    /// Signaling server URL (None = the default server)
    pub signaling_server_url: Option<String>,
    /// Selected audio preset
    pub preset: AudioPreset,
    /// Rooms joined, most recent first
    pub connection_history: Vec<ConnectionHistoryEntry>,
    /// Display name in sessions
    pub peer_name: String,
}

/// The peer name used until one is set.
pub fn default_peer_name() -> (r: String)
    ensures
        r@ == "User"@,
{
    "User".to_string()
}

/// The buffer size used until one is set.
pub fn default_buffer_size() -> (r: u32)
    ensures
        r == DEFAULT_BUFFER_SIZE,
{
    DEFAULT_BUFFER_SIZE
}

impl Default for AppConfig {
    fn default() -> (c: Self)
        ensures
            c.input_device_id is None,
            c.output_device_id is None,
            c.buffer_size == DEFAULT_BUFFER_SIZE,
            c.signaling_server_url is None,
            c.preset == AudioPreset::Balanced,
            c.connection_history@.len() == 0,
            c.peer_name@ == "User"@,
    {
        AppConfig {
            input_device_id: None,
            output_device_id: None,
            buffer_size: DEFAULT_BUFFER_SIZE,
            signaling_server_url: None,
            preset: AudioPreset::Balanced,
            connection_history: Vec::new(),
            peer_name: default_peer_name(),
        }
    }
}

/// A signaling server URL is accepted when it starts with `ws://` or `wss://`.
pub open spec fn valid_server_url(url: Seq<char>) -> bool {
    has_prefix(url, "ws://"@) || has_prefix(url, "wss://"@)
}

/// The refusal of a signaling server URL.
pub open spec fn url_refusal(url: Seq<char>) -> Seq<char> {
    "Invalid signaling server URL: "@ + url + ". Must start with ws:// or wss://"@
}

/// What `validate` answers: the buffer size is checked first, then the URL.
pub open spec fn config_refusal(buffer_size: u32, url: Option<Seq<char>>) -> Option<Seq<char>> {
    if !valid_buffer_size(buffer_size) {
        Some(buffer_size_refusal(buffer_size))
    } else if url matches Some(u) && !valid_server_url(u) {
        Some(url_refusal(url->0))
    } else {
        None
    }
}

/// The refusal of a peer name, by its trimmed form.
pub open spec fn peer_name_refusal(t: Seq<char>) -> Option<Seq<char>> {
    if t.len() == 0 {
        Some("Peer name cannot be empty"@)
    } else if utf8_len(t) as usize > MAX_PEER_NAME_BYTES {
        Some("Peer name cannot exceed 32 characters"@)
    } else {
        None
    }
}

/// Checks an already trimmed peer name: it must not be empty, and its
/// UTF-8 form must have at most 32 bytes.
pub fn check_trimmed_peer_name(t: &str) -> (r: Result<String, String>)
    ensures
        match r {
            Ok(n) => peer_name_refusal(t@) is None && n@ == t@,
            Err(m) => peer_name_refusal(t@) == Some(m@),
        },
{
    if t.unicode_len() == 0 {
        return Err("Peer name cannot be empty".to_string());
    }
    if t.len() > MAX_PEER_NAME_BYTES {
        return Err("Peer name cannot exceed 32 characters".to_string());
    }
    Ok(t.to_string())
}

/// A peer name as entered, with surrounding white space removed, or why it
/// is refused.
pub fn validate_peer_name(name: &str) -> (r: Result<String, String>)
    ensures
        match r {
            Ok(n) => peer_name_refusal(trimmed(name@)) is None && n@ == trimmed(name@),
            Err(m) => peer_name_refusal(trimmed(name@)) == Some(m@),
        },
{
    let t = trim_text(name);
    check_trimmed_peer_name(t)
}

impl AppConfig {
    /// Checks the settings: the buffer size must be accepted, and a server
    /// URL, if set, must start with `ws://` or `wss://`.
    pub fn validate(&self) -> (r: Result<(), String>)
        ensures
            match r {
                Ok(()) => config_refusal(self.buffer_size, opt_text(self.signaling_server_url)) is None,
                Err(m) => config_refusal(self.buffer_size, opt_text(self.signaling_server_url))
                    == Some(m@),
            },
    {
        check_buffer_size(self.buffer_size)?;
        match &self.signaling_server_url {
            Some(url) => {
                if !starts_with_text(url.as_str(), "ws://") && !starts_with_text(url.as_str(), "wss://") {
                    let msg = "Invalid signaling server URL: ".to_string().concat(url.as_str()).concat(
                        ". Must start with ws:// or wss://",
                    );
                    return Err(msg);
                }
                Ok(())
            },
            None => Ok(()),
        }
    }

    /// Selects the preset named `name` and takes over its buffer size.
    pub fn set_preset(&mut self, name: &str) -> (r: Result<PresetInfo, String>)
        ensures
            match preset_named(name@) {
                Some(p) => {
                    &&& r matches Ok(info) && info.id@ == preset_name(p) && info.buffer_size
                        == preset_buffer_size(p) && info.jitter_buffer_frames == preset_jitter_frames(p)
                    &&& final(self).preset == p
                    &&& final(self).buffer_size == preset_buffer_size(p)
                    &&& final(self).peer_name == old(self).peer_name
                    &&& final(self).connection_history == old(self).connection_history
                    &&& final(self).signaling_server_url == old(self).signaling_server_url
                    &&& final(self).input_device_id == old(self).input_device_id
                    &&& final(self).output_device_id == old(self).output_device_id
                },
                None => {
                    &&& r matches Err(m) && m@ == "Unknown preset: "@ + name@
                    &&& *final(self) == *old(self)
                },
            },
    {
        match AudioPreset::from_name(name) {
            Some(p) => {
                self.preset = p;
                self.buffer_size = p.buffer_size();
                Ok(PresetInfo::of(p))
            },
            None => Err("Unknown preset: ".to_string().concat(name)),
        }
    }

    /// Sets the display name, as entered, once trimmed and checked.
    pub fn set_peer_name(&mut self, name: &str) -> (r: Result<(), String>)
        ensures
            match peer_name_refusal(trimmed(name@)) {
                None => r is Ok && final(self).peer_name@ == trimmed(name@),
                Some(m) => r matches Err(e) && e@ == m && *final(self) == *old(self),
            },
            final(self).buffer_size == old(self).buffer_size,
            final(self).connection_history == old(self).connection_history,
            final(self).signaling_server_url == old(self).signaling_server_url,
            final(self).preset == old(self).preset,
            final(self).input_device_id == old(self).input_device_id,
            final(self).output_device_id == old(self).output_device_id,
    {
        let n = validate_peer_name(name)?;
        self.peer_name = n;
        Ok(())
    }
}


/// The entries of `h` for rooms other than `code`.
fn entries_without(h: &Vec<ConnectionHistoryEntry>, code: &str) -> (r: Vec<ConnectionHistoryEntry>)
    ensures
        history_view(r@) == without_room(history_view(h@), code@),
{
    let ghost hv = history_view(h@);
    let mut out: Vec<ConnectionHistoryEntry> = Vec::new();
    let mut i: usize = 0;
    while i < h.len()
        invariant
            i <= h@.len(),
            hv == history_view(h@),
            history_view(out@) == without_room(hv.subrange(0, i as int), code@),
        decreases h.len() - i,
    {
        let ghost before = out@;
        assert(hv.subrange(0, i as int + 1).drop_last() =~= hv.subrange(0, i as int));
        if !same_text(h[i].room_code.as_str(), code) {
            let e = h[i].clone();
            out.push(e);
            assert(history_view(out@) =~= history_view(before).push(hv[i as int]));
        }
        i = i + 1;
    }
    assert(hv.subrange(0, h@.len() as int) =~= hv);
    out
}

/// Proof that `entry_for` names the first entry for a room.
proof fn lemma_entry_for(h: Seq<EntryModel>, code: Seq<char>, i: int)
    requires
        -1 <= i < h.len(),
        i >= 0 ==> h[i].room_code == code,
        forall|j: int| 0 <= j < i ==> (#[trigger] h[j]).room_code != code,
        i < 0 ==> forall|j: int| 0 <= j < h.len() ==> (#[trigger] h[j]).room_code != code,
    ensures
        entry_for(h, code) == i,
{
    if i >= 0 {
        let k = entry_for(h, code);
        assert(0 <= k < h.len() && h[k].room_code == code);
        if k < i {
            assert(h[k].room_code != code);
        }
        if k > i {
            assert(h[i].room_code != code);
        }
    }
}

impl AppConfig {
    /// Records a connection to `room_code` made at `connected_at`: the
    /// entry goes first, any older entry for the room goes, and at most
    /// `MAX_HISTORY_ENTRIES` entries stay.
    pub fn add_connection_history_at(
        &mut self,
        room_code: String,
        label: Option<String>,
        connected_at: Timestamp,
    )
        ensures
            history_view(final(self).connection_history@) == history_with(
                history_view(old(self).connection_history@),
                EntryModel { room_code: room_code@, connected_at, label: opt_text(label) },
            ),
            final(self).buffer_size == old(self).buffer_size,
            final(self).preset == old(self).preset,
            final(self).peer_name == old(self).peer_name,
            final(self).signaling_server_url == old(self).signaling_server_url,
            final(self).input_device_id == old(self).input_device_id,
            final(self).output_device_id == old(self).output_device_id,
    {
        let ghost h = history_view(self.connection_history@);
        let mut kept = entries_without(&self.connection_history, room_code.as_str());
        let ghost e = EntryModel { room_code: room_code@, connected_at, label: opt_text(label) };
        let entry = ConnectionHistoryEntry { room_code, connected_at, label };
        kept.insert(0, entry);
        assert(history_view(kept@) =~= seq![e] + without_room(h, e.room_code));
        kept.truncate(MAX_HISTORY_ENTRIES);
        assert(history_view(kept@) =~= history_with(h, e));
        self.connection_history = kept;
    }

    /// Records a connection to `room_code` made now.
    pub fn add_connection_history(&mut self, room_code: String, label: Option<String>)
        ensures
            exists|t: Timestamp|
                history_view(final(self).connection_history@) == #[trigger] history_with(
                    history_view(old(self).connection_history@),
                    EntryModel { room_code: room_code@, connected_at: t, label: opt_text(label) },
                ),
            final(self).buffer_size == old(self).buffer_size,
            final(self).preset == old(self).preset,
            final(self).peer_name == old(self).peer_name,
            final(self).signaling_server_url == old(self).signaling_server_url,
            final(self).input_device_id == old(self).input_device_id,
            final(self).output_device_id == old(self).output_device_id,
    {
        let now = utc_now();
        self.add_connection_history_at(room_code, label, now);
    }

    /// Forgets the entries for `room_code`.
    pub fn remove_connection_history(&mut self, room_code: &str)
        ensures
            history_view(final(self).connection_history@) == without_room(
                history_view(old(self).connection_history@),
                room_code@,
            ),
            final(self).buffer_size == old(self).buffer_size,
            final(self).preset == old(self).preset,
            final(self).peer_name == old(self).peer_name,
            final(self).signaling_server_url == old(self).signaling_server_url,
            final(self).input_device_id == old(self).input_device_id,
            final(self).output_device_id == old(self).output_device_id,
    {
        let kept = entries_without(&self.connection_history, room_code);
        self.connection_history = kept;
    }

    /// Forgets every entry.
    pub fn clear_connection_history(&mut self)
        ensures
            final(self).connection_history@.len() == 0,
            final(self).buffer_size == old(self).buffer_size,
            final(self).preset == old(self).preset,
            final(self).peer_name == old(self).peer_name,
            final(self).signaling_server_url == old(self).signaling_server_url,
            final(self).input_device_id == old(self).input_device_id,
            final(self).output_device_id == old(self).output_device_id,
    {
        self.connection_history.clear();
    }

    /// Sets the label of the first entry for `room_code`; fails when there
    /// is none.
    pub fn update_connection_history_label(&mut self, room_code: &str, label: Option<String>) -> (r:
        Result<(), String>)
        ensures
            ({
                let h = history_view(old(self).connection_history@);
                let i = entry_for(h, room_code@);
                if i >= 0 {
                    &&& r is Ok
                    &&& history_view(final(self).connection_history@) == h.update(
                        i,
                        EntryModel { label: opt_text(label), ..h[i] },
                    )
                } else {
                    &&& r matches Err(m) && m@ == "Room code not found in history: "@ + room_code@
                    &&& history_view(final(self).connection_history@) == h
                }
            }),
            final(self).buffer_size == old(self).buffer_size,
            final(self).preset == old(self).preset,
            final(self).peer_name == old(self).peer_name,
            final(self).signaling_server_url == old(self).signaling_server_url,
            final(self).input_device_id == old(self).input_device_id,
            final(self).output_device_id == old(self).output_device_id,
    {
        let ghost h = history_view(self.connection_history@);
        let mut i: usize = 0;
        while i < self.connection_history.len()
            invariant
                i <= self.connection_history@.len(),
                h == history_view(self.connection_history@),
                h == history_view(old(self).connection_history@),
                self.buffer_size == old(self).buffer_size,
                self.preset == old(self).preset,
                self.peer_name == old(self).peer_name,
                self.signaling_server_url == old(self).signaling_server_url,
                self.input_device_id == old(self).input_device_id,
                self.output_device_id == old(self).output_device_id,
                forall|j: int| 0 <= j < i ==> (#[trigger] h[j]).room_code != room_code@,
            decreases self.connection_history.len() - i,
        {
            if same_text(self.connection_history[i].room_code.as_str(), room_code) {
                proof {
                    lemma_entry_for(h, room_code@, i as int);
                }
                let mut e = self.connection_history.remove(i);
                e.label = label;
                let ghost ev = e@;
                self.connection_history.insert(i, e);
                assert(history_view(self.connection_history@) =~= h.update(i as int, ev));
                return Ok(());
            }
            i = i + 1;
        }
        proof {
            lemma_entry_for(h, room_code@, -1);
        }
        Err("Room code not found in history: ".to_string().concat(room_code))
    }
}


/// Removing a room from a history leaves no entry for it and never adds
/// entries.
pub proof fn lemma_without_room(h: Seq<EntryModel>, code: Seq<char>)
    ensures
        without_room(h, code).len() <= h.len(),
        forall|k: int|
            0 <= k < without_room(h, code).len() ==> (#[trigger] without_room(h, code)[k]).room_code
                != code,
    decreases h.len(),
{
    if h.len() > 0 {
        lemma_without_room(h.drop_last(), code);
    }
}

/// After a connection is recorded, its room comes first, no other entry is
/// for that room, and the history holds at most `MAX_HISTORY_ENTRIES`
/// entries.
pub proof fn lemma_history_with(h: Seq<EntryModel>, e: EntryModel)
    ensures
        history_with(h, e).len() >= 1,
        history_with(h, e).len() <= MAX_HISTORY_ENTRIES,
        history_with(h, e)[0] == e,
        forall|k: int|
            1 <= k < history_with(h, e).len() ==> (#[trigger] history_with(h, e)[k]).room_code
                != e.room_code,
{
    lemma_without_room(h, e.room_code);
    let all = seq![e] + without_room(h, e.room_code);
    assert forall|k: int| 1 <= k < all.len() implies (#[trigger] all[k]).room_code != e.room_code by {
        assert(all[k] == without_room(h, e.room_code)[k - 1]);
    }
}

} // verus!

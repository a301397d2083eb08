//! The media player widget's state: which session is controlled, whether the track
//! changed, the estimated playback position, the cached cover, and the commands sent
//! to the system's media session.
use crate::lyrics::{opt_lyrics_view, Lyrics, LyricsCache, LyricsView};
use crate::text::{str_eq, chars_of, string_of};
use vstd::prelude::*;

verus! {

/// The repeat modes of a media session.
#[derive(Debug, Clone, Copy, PartialEq, Eq, Structural)]
pub enum RepeatMode {
    Off,
    Track,
    List,
}

/// The name the widget shows for a repeat mode.
pub open spec fn repeat_mode_name_spec(m: RepeatMode) -> Seq<char> {
    match m {
        RepeatMode::Off => "none"@,
        RepeatMode::Track => "one"@,
        RepeatMode::List => "all"@,
    }
}

/// The name the widget shows for a repeat mode: `none`, `one` or `all`.
pub fn repeat_mode_name(m: RepeatMode) -> (r: String)
    ensures
        r@ == repeat_mode_name_spec(m),
{
    match m {
        RepeatMode::Off => "none".to_owned(),
        RepeatMode::Track => "one".to_owned(),
        RepeatMode::List => "all".to_owned(),
    }
}

/// The mode that cycling the repeat mode moves to: none, then all, then one, then none;
/// an unknown current mode moves to none.
pub open spec fn next_repeat_mode_spec(current: Option<RepeatMode>) -> RepeatMode {
    match current {
        Some(RepeatMode::Off) => RepeatMode::List,
        Some(RepeatMode::List) => RepeatMode::Track,
        _ => RepeatMode::Off,
    }
}

/// The mode that cycling the repeat mode moves to.
pub fn next_repeat_mode(current: Option<RepeatMode>) -> (r: RepeatMode)
    ensures
        r == next_repeat_mode_spec(current),
{
    match current {
        Some(RepeatMode::Off) => RepeatMode::List,
        Some(RepeatMode::List) => RepeatMode::Track,
        _ => RepeatMode::Off,
    }
}

/// Milliseconds of a media timeline value given in 100-nanosecond ticks; negative values
/// count as zero.
pub open spec fn ticks_to_ms_spec(ticks: i64) -> u64 {
    if ticks < 0 {
        0
    } else {
        (ticks / 10000) as u64
    }
}

/// Converts 100-nanosecond ticks to milliseconds.
pub fn ticks_to_ms(ticks: i64) -> (r: u64)
    ensures
        r == ticks_to_ms_spec(ticks),
{
    if ticks < 0 {
        0
    } else {
        (ticks as u64) / 10000
    }
}

/// Converts a position in milliseconds to 100-nanosecond ticks.
pub fn position_to_ticks(ms: u64) -> (r: i64)
    requires
        ms * 10000 <= i64::MAX,
    ensures
        r == ms * 10000,
{
    (ms as i64) * 10000
}

/// A cover image of this many bytes is read: neither empty nor over 10 MiB.
pub open spec fn thumbnail_size_ok_spec(size: u64) -> bool {
    size != 0 && size <= 10 * 1024 * 1024
}

/// Whether a cover image stream of this size is read.
pub fn thumbnail_size_ok(size: u64) -> (r: bool)
    ensures
        r == thumbnail_size_ok_spec(size),
{
    !(size == 0 || size > 10 * 1024 * 1024)
}

/// The character of a 6-bit value in the standard base64 alphabet.
pub open spec fn b64_char(v: int) -> char {
    if v < 26 {
        (v + 65) as char
    } else if v < 52 {
        (v + 71) as char
    } else if v < 62 {
        (v - 4) as char
    } else if v == 62 {
        '+'
    } else {
        '/'
    }
}

/// Standard base64 with `=` padding: every three bytes become four characters.
pub open spec fn base64_spec(b: Seq<u8>) -> Seq<char>
    decreases b.len(),
{
    if b.len() == 0 {
        Seq::empty()
    } else if b.len() == 1 {
        seq![b64_char((b[0] / 4) as int), b64_char((b[0] % 4) * 16), '=', '=']
    } else if b.len() == 2 {
        seq![
            b64_char((b[0] / 4) as int),
            b64_char((b[0] % 4) * 16 + b[1] / 16),
            b64_char((b[1] % 16) * 4),
            '=',
        ]
    } else {
        seq![
            b64_char((b[0] / 4) as int),
            b64_char((b[0] % 4) * 16 + b[1] / 16),
            b64_char((b[1] % 16) * 4 + b[2] / 64),
            b64_char((b[2] % 64) as int),
        ] + base64_spec(b.subrange(3, b.len() as int))
    }
}

/// Calls `base64::engine::general_purpose::STANDARD.encode`, the standard base64
/// alphabet with padding. It panics when the encoded length does not fit in a `usize`.
#[verifier::external_body]
fn base64_encode(bytes: &[u8]) -> (r: String)
    requires
        (bytes@.len() + 2) / 3 * 4 <= usize::MAX,
    ensures
        r@ == base64_spec(bytes@),
{
    base64::Engine::encode(&base64::engine::general_purpose::STANDARD, bytes)
}

/// The cover image as the widget shows it: the base64 text of its bytes, or nothing
/// when there are none.
pub fn thumbnail_from_bytes(bytes: &[u8]) -> (r: Option<String>)
    requires
        (bytes@.len() + 2) / 3 * 4 <= usize::MAX,
    ensures
        bytes@.len() == 0 ==> r is None,
        bytes@.len() > 0 ==> (r matches Some(s) && s@ == base64_spec(bytes@)),
{
    if bytes.len() == 0 {
        None
    } else {
        Some(base64_encode(bytes))
    }
}

/// A media session as listed to the user.
#[derive(Debug)]
pub struct MediaSessionInfo {
    pub id: String,
    pub app_name: String,
}

/// The sessions listed to the user, from the ids of the system's sessions: those with
/// an empty id are left out, and each is named by its id.
pub open spec fn session_list_spec(ids: Seq<Seq<char>>) -> Seq<(Seq<char>, Seq<char>)>
    decreases ids.len(),
{
    if ids.len() == 0 {
        Seq::empty()
    } else {
        session_list_spec(ids.drop_last()) + (if ids.last().len() == 0 {
            Seq::empty()
        } else {
            seq![(ids.last(), ids.last())]
        })
    }
}

/// The views of listed sessions.
pub open spec fn session_views(v: Seq<MediaSessionInfo>) -> Seq<(Seq<char>, Seq<char>)> {
    v.map_values(|s: MediaSessionInfo| (s.id@, s.app_name@))
}

/// Lists the sessions with the given ids.
pub fn media_sessions_from_ids(ids: &Vec<String>) -> (r: Vec<MediaSessionInfo>)
    ensures
        session_views(r@) == session_list_spec(crate::text::string_views(ids@)),
{
    let ghost all = crate::text::string_views(ids@);
    let mut out: Vec<MediaSessionInfo> = Vec::new();
    let mut i: usize = 0;
    while i < ids.len()
        invariant
            all == crate::text::string_views(ids@),
            i <= ids@.len(),
            session_views(out@) == session_list_spec(all.take(i as int)),
        decreases ids@.len() - i,
    {
        assert(all.take(i + 1).drop_last() =~= all.take(i as int));
        assert(all.take(i + 1).last() == ids@[i as int]@);
        let ghost prev = session_views(out@);
        let id = &ids[i];
        if !id.as_str().is_empty() {
            out.push(MediaSessionInfo { id: id.clone(), app_name: id.clone() });
            assert(session_views(out@) =~= prev + seq![(ids@[i as int]@, ids@[i as int]@)]);
        } else {
            assert(session_views(out@) =~= prev + Seq::<(Seq<char>, Seq<char>)>::empty());
        }
        i = i + 1;
    }
    assert(all.take(ids@.len() as int) =~= all);
    out
}

/// The session to control: the one the user selected, or else the only session the
/// system lists when it lists exactly one whose id could be read and is not empty.
pub open spec fn effective_session_spec(selected: Option<Seq<char>>, ids: Seq<Option<Seq<char>>>) -> Option<Seq<char>> {
    match selected {
        Some(s) => Some(s),
        None => if ids.len() == 1 && (ids[0] matches Some(id) && id.len() > 0) {
            ids[0]
        } else {
            None
        },
    }
}

/// The views of optional strings.
pub open spec fn opt_string_views(v: Seq<Option<String>>) -> Seq<Option<Seq<char>>> {
    v.map_values(|o: Option<String>| opt_str_view(o))
}

/// The view of an optional string.
pub open spec fn opt_str_view(o: Option<String>) -> Option<Seq<char>> {
    match o {
        Some(s) => Some(s@),
        None => None,
    }
}

/// Picks the session to control from the user's choice and the ids of the listed
/// sessions (`None` where an id could not be read).
pub fn effective_session_id(selected: &Option<String>, ids: &Vec<Option<String>>) -> (r: Option<String>)
    ensures
        opt_str_view(r) == effective_session_spec(opt_str_view(*selected), opt_string_views(ids@)),
{
    match selected {
        Some(s) => Some(s.clone()),
        None => {
            if ids.len() == 1 {
                assert(opt_string_views(ids@)[0] == opt_str_view(ids@[0]));
                match &ids[0] {
                    Some(id) => {
                        if !id.as_str().is_empty() {
                            Some(id.clone())
                        } else {
                            None
                        }
                    },
                    None => None,
                }
            } else {
                None
            }
        },
    }
}

/// The first index of `target` among the ids, if any.
pub open spec fn session_index_spec(ids: Seq<Option<Seq<char>>>, target: Seq<char>) -> Option<int>
    decreases ids.len(),
{
    if ids.len() == 0 {
        None
    } else {
        match session_index_spec(ids.drop_last(), target) {
            Some(i) => Some(i),
            None => if ids.last() == Some(target) {
                Some(ids.len() - 1)
            } else {
                None
            },
        }
    }
}

/// Finds the listed session whose id is `target`: the first such, in list order.
pub fn find_session_index(ids: &Vec<Option<String>>, target: &str) -> (r: Option<usize>)
    ensures
        match session_index_spec(opt_string_views(ids@), target@) {
            Some(i) => r == Some(i as usize),
            None => r is None,
        },
{
    let ghost all = opt_string_views(ids@);
    let mut i: usize = 0;
    while i < ids.len()
        invariant
            all == opt_string_views(ids@),
            i <= ids@.len(),
            session_index_spec(all.take(i as int), target@) is None,
        decreases ids@.len() - i,
    {
        assert(all.take(i + 1).drop_last() =~= all.take(i as int));
        assert(all.take(i + 1).last() == opt_str_view(ids@[i as int]));
        let found = match &ids[i] {
            Some(id) => str_eq(id.as_str(), target),
            None => false,
        };
        if found {
            proof {
                assert(all.take(i + 1).last() == Some(target@));
                assert(session_index_spec(all.take(i + 1), target@) == Some(i as int));
                lemma_index_prefix(all, target@, i + 1);
            }
            return Some(i);
        }
        i = i + 1;
    }
    assert(all.take(ids@.len() as int) =~= all);
    None
}

proof fn lemma_index_prefix(all: Seq<Option<Seq<char>>>, target: Seq<char>, k: int)
    requires
        0 < k <= all.len(),
        session_index_spec(all.take(k), target) is Some,
    ensures
        session_index_spec(all, target) == session_index_spec(all.take(k), target),
    decreases all.len() - k,
{
    if k < all.len() {
        assert(all.take(k + 1).drop_last() =~= all.take(k));
        lemma_index_prefix(all, target, k + 1);
    } else {
        assert(all.take(k) =~= all);
    }
}

/// A request of the widget to the media session.
#[derive(Debug, Clone, Copy)]
pub enum MediaAction {
    Play,
    Pause,
    Toggle,
    Next,
    Previous,
    SetPosition(u64),
    SetShuffle(bool),
    CycleRepeat,
}

/// A call on the media session.
#[derive(Debug, Clone, Copy, PartialEq, Eq, Structural)]
pub enum MediaCommand {
    Play,
    Pause,
    SkipNext,
    SkipPrevious,
    ChangePosition(i64),
    ChangeShuffle(bool),
    ChangeRepeat(RepeatMode),
}

/// The action reads the session's playback status before its command is known.
pub open spec fn needs_status_spec(a: MediaAction) -> bool {
    a is Toggle
}

/// The action reads the session's repeat mode before its command is known.
pub open spec fn needs_repeat_spec(a: MediaAction) -> bool {
    a is CycleRepeat
}

/// Whether the action reads the playback status first.
pub fn needs_playback_status(a: MediaAction) -> (r: bool)
    ensures
        r == needs_status_spec(a),
{
    match a {
        MediaAction::Toggle => true,
        _ => false,
    }
}

/// Whether the action reads the repeat mode first.
pub fn needs_repeat_mode(a: MediaAction) -> (r: bool)
    ensures
        r == needs_repeat_spec(a),
{
    match a {
        MediaAction::CycleRepeat => true,
        _ => false,
    }
}

/// The positions the action can carry convert to ticks.
pub open spec fn action_fits(a: MediaAction) -> bool {
    a matches MediaAction::SetPosition(ms) ==> ms * 10000 <= i64::MAX
}

/// The command an action sends, given the playback status (read for a toggle) and the
/// current repeat mode (read for cycling, `None` when it could not be read).
pub open spec fn media_command_spec(a: MediaAction, playing: bool, repeat: Option<RepeatMode>) -> MediaCommand {
    match a {
        MediaAction::Play => MediaCommand::Play,
        MediaAction::Pause => MediaCommand::Pause,
        MediaAction::Toggle => if playing {
            MediaCommand::Pause
        } else {
            MediaCommand::Play
        },
        MediaAction::Next => MediaCommand::SkipNext,
        MediaAction::Previous => MediaCommand::SkipPrevious,
        MediaAction::SetPosition(ms) => MediaCommand::ChangePosition((ms * 10000) as i64),
        MediaAction::SetShuffle(b) => MediaCommand::ChangeShuffle(b),
        MediaAction::CycleRepeat => MediaCommand::ChangeRepeat(next_repeat_mode_spec(repeat)),
    }
}

/// Play and pause are sent as they are asked, whatever the session's state; play and
/// pause are different commands; a toggle pauses a playing session and plays a paused
/// one, sending what an explicit pause or play sends; skips go the way they are asked.
pub proof fn law_play_pause_toggle(playing: bool, other: bool, repeat: Option<RepeatMode>, other_repeat: Option<RepeatMode>)
    ensures
        media_command_spec(MediaAction::Play, playing, repeat) == MediaCommand::Play,
        media_command_spec(MediaAction::Pause, playing, repeat) == MediaCommand::Pause,
        media_command_spec(MediaAction::Play, playing, repeat) != media_command_spec(MediaAction::Pause, other, other_repeat),
        media_command_spec(MediaAction::Toggle, true, repeat) == media_command_spec(MediaAction::Pause, other, other_repeat),
        media_command_spec(MediaAction::Toggle, false, repeat) == media_command_spec(MediaAction::Play, other, other_repeat),
        media_command_spec(MediaAction::Next, playing, repeat) == MediaCommand::SkipNext,
        media_command_spec(MediaAction::Previous, playing, repeat) == MediaCommand::SkipPrevious,
{
}

/// The other actions carry their argument through: a shuffle setting as it is asked, a
/// position in milliseconds as ten thousand ticks each, and a repeat cycle as the next
/// mode; cycling always changes a known mode, visits all three, and comes back after
/// three steps.
pub proof fn law_commands_carry_arguments(m: RepeatMode, b: bool, ms: u64, playing: bool, repeat: Option<RepeatMode>)
    ensures
        media_command_spec(MediaAction::SetShuffle(b), playing, repeat) == MediaCommand::ChangeShuffle(b),
        ms * 10000 <= i64::MAX ==> media_command_spec(MediaAction::SetPosition(ms), playing, repeat)
            == MediaCommand::ChangePosition((ms * 10000) as i64) && (ms * 10000) as i64 == ms * 10000,
        media_command_spec(MediaAction::CycleRepeat, playing, Some(m)) == MediaCommand::ChangeRepeat(
            next_repeat_mode_spec(Some(m)),
        ),
        next_repeat_mode_spec(Some(m)) != m,
        next_repeat_mode_spec(Some(next_repeat_mode_spec(Some(m)))) != m,
        next_repeat_mode_spec(Some(next_repeat_mode_spec(Some(next_repeat_mode_spec(Some(m)))))) == m,
{
}

/// Decides the command an action sends.
pub fn media_command(a: MediaAction, playing: bool, repeat: Option<RepeatMode>) -> (r: MediaCommand)
    requires
        action_fits(a),
    ensures
        r == media_command_spec(a, playing, repeat),
{
    match a {
        MediaAction::Play => MediaCommand::Play,
        MediaAction::Pause => MediaCommand::Pause,
        MediaAction::Toggle => if playing {
            MediaCommand::Pause
        } else {
            MediaCommand::Play
        },
        MediaAction::Next => MediaCommand::SkipNext,
        MediaAction::Previous => MediaCommand::SkipPrevious,
        MediaAction::SetPosition(ms) => MediaCommand::ChangePosition(position_to_ticks(ms)),
        MediaAction::SetShuffle(b) => MediaCommand::ChangeShuffle(b),
        MediaAction::CycleRepeat => MediaCommand::ChangeRepeat(next_repeat_mode(repeat)),
    }
}

/// What the widget remembers between polls.
pub struct MusicView {
    pub last_track_key: Option<Seq<char>>,
    pub cached_thumbnail: Option<Seq<char>>,
    pub selected_session_id: Option<Seq<char>>,
    pub position_ms: u64,
    pub duration_ms: u64,
    pub last_poll_ms: Option<u64>,
}

/// The state of the media player widget: the track last seen, its cover, the chosen
/// session, the position estimated on this side (for sessions that do not report their
/// timeline), and the cache of fetched lyrics.
pub struct MusicPlayerState {
    last_track_key: Option<String>,
    cached_thumbnail: Option<String>,
    selected_session_id: Option<String>,
    estimated_position_ms: u64,
    estimated_duration_ms: u64,
    last_poll_ms: Option<u64>,
    pub lyrics_cache: LyricsCache,
}

impl View for MusicPlayerState {
    type V = MusicView;

    closed spec fn view(&self) -> MusicView {
        MusicView {
            last_track_key: opt_str_view(self.last_track_key),
            cached_thumbnail: opt_str_view(self.cached_thumbnail),
            selected_session_id: opt_str_view(self.selected_session_id),
            position_ms: self.estimated_position_ms,
            duration_ms: self.estimated_duration_ms,
            last_poll_ms: self.last_poll_ms,
        }
    }
}

/// The milliseconds since the last poll, on a clock that counts milliseconds; none
/// before the first poll, and none if the clock went back.
pub open spec fn elapsed_ms(last: Option<u64>, now: u64) -> int {
    match last {
        Some(p) => if now >= p {
            now - p
        } else {
            0
        },
        None => 0,
    }
}

/// The position advanced by the time since the last poll while playing.
pub open spec fn advanced_position(v: MusicView, playing: bool, now: u64) -> int {
    if playing {
        v.position_ms + elapsed_ms(v.last_poll_ms, now)
    } else {
        v.position_ms as int
    }
}

/// The session's own position replaces the estimate when it is reported (not zero) and
/// the two differ by more than two seconds.
pub open spec fn corrected_position(p: int, reported: u64) -> int {
    if reported > 0 && (p - reported > 2000 || reported - p > 2000) {
        reported as int
    } else {
        p
    }
}

/// The state after a poll: on a track change the session's position and (when reported)
/// length are taken as they are; otherwise the estimate advances while playing and is
/// corrected by the session's position. The poll time is remembered.
pub open spec fn estimate_spec(v: MusicView, changed: bool, playing: bool, reported_dur: u64, reported_pos: u64, now: u64) -> MusicView {
    MusicView {
        position_ms: if changed {
            reported_pos
        } else {
            corrected_position(advanced_position(v, playing, now), reported_pos) as u64
        },
        duration_ms: if reported_dur > 0 {
            reported_dur
        } else {
            v.duration_ms
        },
        last_poll_ms: Some(now),
        ..v
    }
}

/// The cover shown after a poll: on a track change the freshly read one (which is also
/// cached), otherwise the cached one.
pub open spec fn thumbnail_spec(v: MusicView, changed: bool, fresh: Option<Seq<char>>) -> (Option<Seq<char>>, MusicView) {
    if changed {
        (fresh, MusicView { cached_thumbnail: fresh, ..v })
    } else {
        (v.cached_thumbnail, v)
    }
}

/// What was read from the media session in one poll.
#[derive(Debug)]
pub struct MediaReading {
    pub title: String,
    pub artist: String,
    pub album: String,
    pub end_ticks: Option<i64>,
    pub position_ticks: Option<i64>,
    pub is_playing: bool,
    pub shuffle: bool,
    pub repeat: RepeatMode,
}

/// What the widget shows of the playing media.
#[derive(Debug)]
pub struct MediaInfo {
    pub title: String,
    pub artist: String,
    pub album: String,
    pub thumbnail: Option<String>,
    pub duration_ms: u64,
    pub position_ms: u64,
    pub is_playing: bool,
    pub shuffle: bool,
    pub repeat_mode: String,
}

/// Milliseconds of an optional timeline value; none counts as zero.
pub open spec fn opt_ticks_ms(t: Option<i64>) -> u64 {
    match t {
        Some(x) => ticks_to_ms_spec(x),
        None => 0,
    }
}

fn opt_ticks_to_ms(t: Option<i64>) -> (r: u64)
    ensures
        r == opt_ticks_ms(t),
{
    match t {
        Some(x) => ticks_to_ms(x),
        None => 0,
    }
}

/// What a poll reporting `title` and `artist` does to the widget: without a title nothing
/// changes; otherwise the track is "title-artist", remembered, and it changed when it
/// differs from the one last seen.
pub open spec fn observe_spec(v: MusicView, title: Seq<char>, artist: Seq<char>) -> (bool, MusicView) {
    if title.len() == 0 {
        (false, v)
    } else {
        let key = crate::lyrics::cache_key_spec(title, artist);
        (v.last_track_key != Some(key), MusicView { last_track_key: Some(key), ..v })
    }
}

impl MusicPlayerState {
    /// The cached lyrics, by key.
    pub closed spec fn lyrics_view(&self) -> Map<Seq<char>, Option<LyricsView>> {
        self.lyrics_cache.view()
    }

    /// A widget that has seen nothing yet.
    pub fn new() -> (s: Self)
        ensures
            s@ == (MusicView {
                last_track_key: None,
                cached_thumbnail: None,
                selected_session_id: None,
                position_ms: 0,
                duration_ms: 0,
                last_poll_ms: None,
            }),
            s.lyrics_view() == Map::<Seq<char>, Option<LyricsView>>::empty(),
    {
        MusicPlayerState {
            last_track_key: None,
            cached_thumbnail: None,
            selected_session_id: None,
            estimated_position_ms: 0,
            estimated_duration_ms: 0,
            last_poll_ms: None,
            lyrics_cache: LyricsCache::new(),
        }
    }

    /// The session the user chose, if any.
    pub fn selected_session(&self) -> (r: Option<String>)
        ensures
            opt_str_view(r) == self@.selected_session_id,
    {
        match &self.selected_session_id {
            Some(s) => Some(s.clone()),
            None => None,
        }
    }

    /// Records the user's choice of session (`None` to choose none).
    pub fn select_session(&mut self, session_id: Option<String>)
        ensures
            final(self)@ == (MusicView { selected_session_id: opt_str_view(session_id), ..old(self)@ }),
            final(self).lyrics_view() == old(self).lyrics_view(),
    {
        self.selected_session_id = session_id;
    }

    /// Notes the track a poll reports and tells whether it changed. A poll without a
    /// title changes nothing; otherwise the track is "title-artist", and it changed when
    /// it differs from the one last seen.
    pub fn observe_track(&mut self, title: &str, artist: &str) -> (changed: bool)
        ensures
            (changed, final(self)@) == observe_spec(old(self)@, title@, artist@),
            final(self).lyrics_view() == old(self).lyrics_view(),
    {
        if title.is_empty() {
            return false;
        }
        let key = crate::lyrics::lyrics_cache_key(title, artist);
        let same = match &self.last_track_key {
            Some(k) => str_eq(k.as_str(), key.as_str()),
            None => false,
        };
        if !same {
            self.last_track_key = Some(key);
        }
        !same
    }

    /// Updates the estimated position and length with what a poll reports (see
    /// `estimate_spec`) and returns the length and the position.
    pub fn estimate_position(
        &mut self,
        track_changed: bool,
        is_playing: bool,
        reported_dur: u64,
        reported_pos: u64,
        now_ms: u64,
    ) -> (r: (u64, u64))
        requires
            reported_pos <= i64::MAX,
            !track_changed ==> advanced_position(old(self)@, is_playing, now_ms) <= i64::MAX,
        ensures
            final(self)@ == estimate_spec(old(self)@, track_changed, is_playing, reported_dur, reported_pos, now_ms),
            r == (final(self)@.duration_ms, final(self)@.position_ms),
            final(self).lyrics_view() == old(self).lyrics_view(),
    {
        if reported_dur > 0 {
            self.estimated_duration_ms = reported_dur;
        }
        if track_changed {
            self.estimated_position_ms = reported_pos;
        } else {
            if is_playing {
                match self.last_poll_ms {
                    Some(prev) => {
                        let elapsed: u64 = if now_ms >= prev { now_ms - prev } else { 0 };
                        self.estimated_position_ms = self.estimated_position_ms + elapsed;
                    },
                    None => {},
                }
            }
            if reported_pos > 0 {
                let p = self.estimated_position_ms;
                let diff: u64 = if p >= reported_pos { p - reported_pos } else { reported_pos - p };
                if diff > 2000 {
                    self.estimated_position_ms = reported_pos;
                }
            }
        }
        self.last_poll_ms = Some(now_ms);
        (self.estimated_duration_ms, self.estimated_position_ms)
    }

    /// Whether the estimate can advance to `now_ms` within the range of positions
    /// (what `estimate_position` and `complete_poll` ask when the track did not change).
    pub fn poll_fits(&self, is_playing: bool, now_ms: u64) -> (r: bool)
        ensures
            r == (advanced_position(self@, is_playing, now_ms) <= i64::MAX),
    {
        if !is_playing {
            return self.estimated_position_ms <= 0x7fff_ffff_ffff_ffff;
        }
        let elapsed: u64 = match self.last_poll_ms {
            Some(p) => if now_ms >= p {
                now_ms - p
            } else {
                0
            },
            None => 0,
        };
        (self.estimated_position_ms as u128) + (elapsed as u128) <= 0x7fff_ffff_ffff_ffffu128
    }

    /// The cover to show after a poll (see `thumbnail_spec`).
    pub fn thumbnail(&mut self, track_changed: bool, fresh: Option<String>) -> (r: Option<String>)
        ensures
            (opt_str_view(r), final(self)@) == thumbnail_spec(old(self)@, track_changed, opt_str_view(fresh)),
            final(self).lyrics_view() == old(self).lyrics_view(),
    {
        if track_changed {
            let copy = match &fresh {
                Some(t) => Some(t.clone()),
                None => None,
            };
            self.cached_thumbnail = copy;
            fresh
        } else {
            match &self.cached_thumbnail {
                Some(t) => Some(t.clone()),
                None => None,
            }
        }
    }

    /// Completes a poll whose track change was decided by `observe_track`: updates the
    /// estimate, picks the cover, and returns what the widget shows.
    pub fn complete_poll(
        &mut self,
        reading: MediaReading,
        track_changed: bool,
        fresh_thumbnail: Option<String>,
        now_ms: u64,
    ) -> (info: MediaInfo)
        requires
            !track_changed ==> advanced_position(old(self)@, reading.is_playing, now_ms) <= i64::MAX,
        ensures
            ({
                let est = estimate_spec(
                    old(self)@,
                    track_changed,
                    reading.is_playing,
                    opt_ticks_ms(reading.end_ticks),
                    opt_ticks_ms(reading.position_ticks),
                    now_ms,
                );
                let th = thumbnail_spec(est, track_changed, opt_str_view(fresh_thumbnail));
                &&& final(self)@ == th.1
                &&& opt_str_view(info.thumbnail) == th.0
                &&& info.duration_ms == est.duration_ms
                &&& info.position_ms == est.position_ms
            }),
            info.title@ == reading.title@,
            info.artist@ == reading.artist@,
            info.album@ == reading.album@,
            info.is_playing == reading.is_playing,
            info.shuffle == reading.shuffle,
            info.repeat_mode@ == repeat_mode_name_spec(reading.repeat),
            final(self).lyrics_view() == old(self).lyrics_view(),
    {
        let dur = opt_ticks_to_ms(reading.end_ticks);
        let pos = opt_ticks_to_ms(reading.position_ticks);
        let (duration_ms, position_ms) = self.estimate_position(track_changed, reading.is_playing, dur, pos, now_ms);
        let thumbnail = self.thumbnail(track_changed, fresh_thumbnail);
        MediaInfo {
            title: reading.title,
            artist: reading.artist,
            album: reading.album,
            thumbnail,
            duration_ms,
            position_ms,
            is_playing: reading.is_playing,
            shuffle: reading.shuffle,
            repeat_mode: repeat_mode_name(reading.repeat),
        }
    }

    /// Takes the song length fetched lyrics give when the widget knows none yet.
    pub fn supplement_duration(&mut self, lyrics: &Option<Lyrics>)
        ensures
            final(self)@ == (match opt_lyrics_view(*lyrics) {
                Some(l) => if (l.2 matches Some(d) && d > 0) && old(self)@.duration_ms == 0 {
                    MusicView { duration_ms: l.2->0, ..old(self)@ }
                } else {
                    old(self)@
                },
                None => old(self)@,
            }),
            final(self).lyrics_view() == old(self).lyrics_view(),
    {
        match lyrics {
            Some(l) => match l.duration_ms {
                Some(d) => {
                    if d > 0 && self.estimated_duration_ms == 0 {
                        self.estimated_duration_ms = d;
                    }
                },
                None => {},
            },
            None => {},
        }
    }
}

/// A track seen once is not seen as a change when the next poll reports it again, and
/// that second poll leaves the widget as it was.
pub proof fn law_same_track_changes_once(v: MusicView, title: Seq<char>, artist: Seq<char>)
    ensures
        ({
            let first = observe_spec(v, title, artist);
            let second = observe_spec(first.1, title, artist);
            !second.0 && second.1 == first.1
        }),
{
}

/// Without a track change, a paused session that reports no position keeps the
/// estimated position.
pub proof fn law_paused_position_kept(v: MusicView, reported_dur: u64, now: u64)
    ensures
        estimate_spec(v, false, false, reported_dur, 0, now).position_ms == v.position_ms,
{
}

/// Without a track change the estimate never strays more than two seconds from a
/// reported position.
pub proof fn law_estimate_near_reported(v: MusicView, playing: bool, reported_dur: u64, reported_pos: u64, now: u64)
    requires
        reported_pos > 0,
        advanced_position(v, playing, now) <= u64::MAX,
    ensures
        ({
            let p = estimate_spec(v, false, playing, reported_dur, reported_pos, now).position_ms as int;
            p - reported_pos <= 2000 && reported_pos - p <= 2000
        }),
{
}

} // verus!

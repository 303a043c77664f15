//! Local audit log of security-relevant events: the bookkeeping.
//!
//! Pairing attempts and results, trust and permission changes, route approvals and denials,
//! route starts and stops, and connections refused from blocked devices. The shell stores the
//! entries as JSON Lines and hands them back on start; this module decides what is kept and
//! when the file is rewritten.
//!
//! Bounded: the newest `max_entries` entries of the last [`RETENTION_SECS`]. Older entries are
//! dropped on load and as entries arrive. Names come from other devices, so stored text is
//! clipped to [`MAX_FIELD_CHARS`] characters with control characters removed.

use vstd::prelude::*;
use crate::text::push_char;
use std::collections::VecDeque;
use crate::text::chars_of;
use crate::state::RouteKind;

verus! {

pub const MAX_ENTRIES: usize = 1000;
/// 30 days.
pub const RETENTION_SECS: u64 = 2_592_000;
/// Names come from other devices: keep only this many characters.
pub const MAX_FIELD_CHARS: usize = 128;

#[derive(Debug, Clone, Copy, PartialEq, Eq, Structural)]
pub enum AuditKind {
    /// A device that is not paired connected to pair (`detail`: its address).
    PairingAttempt,
    PairingSucceeded,
    /// `detail`: `proof` (wrong or expired QR code), `closed` (pairing mode was not open),
    /// `local` (refused on this device) or `peer` (refused on the other device).
    PairingRejected,
    /// Too many pairing attempts from one address (`detail`: the address).
    PairingRateLimited,
    DeviceForgotten,
    DeviceBlocked,
    DeviceUnblocked,
    /// `detail`: `<permission>=<policy>`, e.g. `useMyMicrophone=deny`.
    PermissionChanged,
    /// A route request was allowed, by the user or by a stored permission.
    RouteApproved,
    /// A route request was refused, by the user or by a stored permission.
    RouteDenied,
    RouteStarted,
    /// `detail`: the stop reason.
    RouteStopped,
    /// A blocked device, or a paired device presenting another key, tried to connect
    /// (`detail`: `blocked` or `keyChanged`).
    ConnectionRefused,
    /// The user cleared the log; always the first entry afterwards.
    LogCleared,
}

/// What a peer may do with this device.
#[derive(Debug, Clone, Copy, PartialEq, Eq, Structural)]
pub enum PermissionKind {
    ReceiveMyAudio,
    UseMyMicrophone,
    SendAudioToMe,
    ControlMe,
}

/// How a permission request is answered.
#[derive(Debug, Clone, Copy, PartialEq, Eq, Structural)]
pub enum Policy {
    Allow,
    Ask,
    Deny,
}

pub open spec fn permission_label(kind: PermissionKind) -> Seq<char> {
    match kind {
        PermissionKind::ReceiveMyAudio => "receiveMyAudio"@,
        PermissionKind::UseMyMicrophone => "useMyMicrophone"@,
        PermissionKind::SendAudioToMe => "sendAudioToMe"@,
        PermissionKind::ControlMe => "controlMe"@,
    }
}

pub open spec fn policy_label(policy: Policy) -> Seq<char> {
    match policy {
        Policy::Allow => "allow"@,
        Policy::Ask => "ask"@,
        Policy::Deny => "deny"@,
    }
}

/// Stable names used in `PermissionChanged` details (the same strings the apps use).
pub fn permission_name(kind: PermissionKind) -> (r: &'static str)
    ensures
        r@ == permission_label(kind),
{
    match kind {
        PermissionKind::ReceiveMyAudio => "receiveMyAudio",
        PermissionKind::UseMyMicrophone => "useMyMicrophone",
        PermissionKind::SendAudioToMe => "sendAudioToMe",
        PermissionKind::ControlMe => "controlMe",
    }
}

/// Policy names used in `PermissionChanged` details.
pub fn policy_name(policy: Policy) -> (r: &'static str)
    ensures
        r@ == policy_label(policy),
{
    match policy {
        Policy::Allow => "allow",
        Policy::Ask => "ask",
        Policy::Deny => "deny",
    }
}

/// One event.
#[derive(Debug, Clone)]
pub struct AuditEntry {
    pub time_unix: u64,
    pub kind: AuditKind,
    /// Device name at the time. For devices that are not paired, an untrusted label.
    pub peer_name: String,
    /// Short device code (`SP-XXXX-XXXX-XXXX`); empty when no device is involved.
    pub peer_code: String,
    pub route: Option<RouteKind>,
    pub detail: String,
}

pub ghost struct AuditEntryView {
    pub time_unix: u64,
    pub kind: AuditKind,
    pub peer_name: Seq<char>,
    pub peer_code: Seq<char>,
    pub route: Option<RouteKind>,
    pub detail: Seq<char>,
}

impl View for AuditEntry {
    type V = AuditEntryView;

    open spec fn view(&self) -> AuditEntryView {
        AuditEntryView {
            time_unix: self.time_unix,
            kind: self.kind,
            peer_name: self.peer_name@,
            peer_code: self.peer_code@,
            route: self.route,
            detail: self.detail@,
        }
    }
}

impl PartialEq for AuditEntry {
    fn eq(&self, other: &Self) -> (r: bool) {
        let same_route = match (self.route, other.route) {
            (Some(a), Some(b)) => a == b,
            (None, None) => true,
            _ => false,
        };
        self.time_unix == other.time_unix && self.kind == other.kind && self.peer_name
            == other.peer_name && self.peer_code == other.peer_code && same_route && self.detail
            == other.detail
    }
}

impl vstd::std_specs::cmp::PartialEqSpecImpl for AuditEntry {
    open spec fn obeys_eq_spec() -> bool {
        true
    }

    open spec fn eq_spec(&self, other: &AuditEntry) -> bool {
        self@ == other@
    }
}

impl Eq for AuditEntry {

}

impl AuditEntry {
    pub fn new(time_unix: u64, kind: AuditKind) -> (r: AuditEntry)
        ensures
            r@ == (AuditEntryView {
                time_unix,
                kind,
                peer_name: Seq::empty(),
                peer_code: Seq::empty(),
                route: None,
                detail: Seq::empty(),
            }),
    {
        AuditEntry {
            time_unix,
            kind,
            peer_name: String::new(),
            peer_code: String::new(),
            route: None,
            detail: String::new(),
        }
    }

    /// The entry with the device involved.
    pub fn peer(self, name: &str, code: String) -> (r: AuditEntry)
        ensures
            r@ == (AuditEntryView { peer_name: name@, peer_code: code@, ..self@ }),
    {
        AuditEntry { peer_name: name.to_owned(), peer_code: code, ..self }
    }

    /// The entry with the route involved.
    pub fn route(self, kind: RouteKind) -> (r: AuditEntry)
        ensures
            r@ == (AuditEntryView { route: Some(kind), ..self@ }),
    {
        AuditEntry { route: Some(kind), ..self }
    }

    /// The entry with a detail.
    pub fn detail(self, detail: &str) -> (r: AuditEntry)
        ensures
            r@ == (AuditEntryView { detail: detail@, ..self@ }),
    {
        AuditEntry { detail: detail.to_owned(), ..self }
    }

    /// A copy of the entry.
    fn duplicate(&self) -> (r: AuditEntry)
        ensures
            r@ == self@,
    {
        AuditEntry {
            time_unix: self.time_unix,
            kind: self.kind,
            peer_name: self.peer_name.clone(),
            peer_code: self.peer_code.clone(),
            route: self.route,
            detail: self.detail.clone(),
        }
    }
}

/// `char::is_control`: the general category Cc (U+0000 to U+001F and U+007F to U+009F).
pub open spec fn is_control(c: char) -> bool {
    c <= '\u{1f}' || ('\u{7f}' <= c && c <= '\u{9f}')
}

/// Text as stored: control characters removed, then at most [`MAX_FIELD_CHARS`] characters.
pub open spec fn clipped(s: Seq<char>) -> Seq<char> {
    let kept = s.filter(|c: char| !is_control(c));
    if kept.len() <= MAX_FIELD_CHARS {
        kept
    } else {
        kept.take(MAX_FIELD_CHARS as int)
    }
}


/// Text as stored (see [`clipped`]).
pub fn clip(text: &str) -> (r: String)
    ensures
        r@ == clipped(text@),
{
    let cs = chars_of(text);
    let ghost keep = |c: char| !is_control(c);
    let mut out = String::new();
    let mut i: usize = 0;
    while i < cs.len()
        invariant
            i <= cs@.len(),
            cs@ == text@,
            keep == (|c: char| !is_control(c)),
            out@ == clipped(cs@.subrange(0, i as int)),
        decreases cs@.len() - i,
    {
        let c = cs[i];
        let ghost f = cs@.subrange(0, i as int).filter(keep);
        proof {
            assert(cs@.subrange(0, i + 1) =~= cs@.subrange(0, i as int).push(c));
            cs@.subrange(0, i as int).lemma_filter_push(c, keep);
        }
        if !(c <= '\u{1f}' || ('\u{7f}' <= c && c <= '\u{9f}')) {
            if out.as_str().unicode_len() < MAX_FIELD_CHARS {
                push_char(&mut out, c);
                assert(out@ =~= clipped(cs@.subrange(0, i + 1)));
            } else {
                assert(f.push(c).take(MAX_FIELD_CHARS as int) =~= f.take(MAX_FIELD_CHARS as int));
            }
        }
        i = i + 1;
    }
    assert(cs@.subrange(0, cs@.len() as int) =~= cs@);
    out
}

/// Entries that survive a load: the parsed ones (damaged lines and unknown kinds are `None`)
/// not older than `cutoff`.
pub open spec fn fresh(lines: Seq<Option<AuditEntryView>>, cutoff: u64) -> Seq<AuditEntryView>
    decreases lines.len(),
{
    if lines.len() == 0 {
        Seq::empty()
    } else {
        let rest = fresh(lines.drop_last(), cutoff);
        match lines.last() {
            Some(e) => if e.time_unix >= cutoff {
                rest.push(e)
            } else {
                rest
            },
            None => rest,
        }
    }
}

/// The newest `max` of `s`.
pub open spec fn newest(s: Seq<AuditEntryView>, max: int) -> Seq<AuditEntryView> {
    if s.len() <= max {
        s
    } else {
        s.subrange(s.len() - max, s.len() as int)
    }
}

/// `s` without its leading entries older than `cutoff`.
pub open spec fn drop_stale(s: Seq<AuditEntryView>, cutoff: u64) -> Seq<AuditEntryView>
    decreases s.len(),
{
    if s.len() > 0 && s[0].time_unix < cutoff {
        drop_stale(s.drop_first(), cutoff)
    } else {
        s
    }
}

pub open spec fn clipped_entry(e: AuditEntryView) -> AuditEntryView {
    AuditEntryView { peer_name: clipped(e.peer_name), detail: clipped(e.detail), ..e }
}

pub open spec fn sat_sub(a: u64, b: u64) -> u64 {
    if a >= b {
        (a - b) as u64
    } else {
        0
    }
}

/// The log after recording `e` (before any write).
pub open spec fn record_step(s: Seq<AuditEntryView>, e: AuditEntryView, max: int) -> Seq<AuditEntryView> {
    newest(drop_stale(s, sat_sub(e.time_unix, RETENTION_SECS)).push(clipped_entry(e)), max)
}

/// What the shell must do with the file after [`AuditLog::record`].
#[derive(Debug, Clone, Copy, PartialEq, Eq, Structural)]
pub enum WriteAction {
    /// Append the new entry as one line, then call [`AuditLog::appended`] if that worked.
    Append,
    /// Rewrite the file with [`AuditLog::entries`] (oldest first), then call
    /// [`AuditLog::compacted`] if that worked.
    Compact,
}

pub ghost struct AuditLogView {
    pub entries: Seq<AuditEntryView>,
    pub max_entries: usize,
    /// Lines in the file.
    pub lines_on_disk: usize,
}

/// The log held in memory: oldest entry first.
pub struct AuditLog {
    entries: VecDeque<AuditEntry>,
    max_entries: usize,
    /// Lines in the file. The file is compacted when it holds twice the entry limit.
    lines_on_disk: usize,
}

impl View for AuditLog {
    type V = AuditLogView;

    closed spec fn view(&self) -> AuditLogView {
        AuditLogView {
            entries: self.entries@.map_values(|e: AuditEntry| e@),
            max_entries: self.max_entries,
            lines_on_disk: self.lines_on_disk,
        }
    }
}

pub open spec fn entry_views(v: Seq<AuditEntry>) -> Seq<AuditEntryView> {
    v.map_values(|e: AuditEntry| e@)
}

pub open spec fn option_views(v: Seq<Option<AuditEntry>>) -> Seq<Option<AuditEntryView>> {
    v.map_values(|o: Option<AuditEntry>| match o {
        Some(e) => Some(e@),
        None => None,
    })
}

/// Keeping the newest `m` after each push is keeping the newest `m` at the end.
proof fn lemma_newest_push(s: Seq<AuditEntryView>, e: AuditEntryView, m: int)
    requires
        m >= 0,
    ensures
        newest(s.push(e), m) == (if newest(s, m).push(e).len() > m {
            newest(s, m).push(e).drop_first()
        } else {
            newest(s, m).push(e)
        }),
{
    let t = newest(s, m);
    if s.len() <= m {
        if s.len() + 1 > m {
            assert(s.push(e).subrange(s.len() + 1 - m, s.len() + 1int) =~= s.push(e).drop_first());
        }
    } else {
        assert(s.push(e).subrange(s.len() + 1 - m, s.len() + 1int) =~= t.push(e).drop_first());
    }
}

/// Dropping the oldest entry of a log over its bound keeps the same newest entries.
proof fn lemma_newest_drop_first(s: Seq<AuditEntryView>, m: int)
    requires
        0 <= m < s.len(),
    ensures
        newest(s.drop_first(), m) == newest(s, m),
{
    if s.len() - 1 > m {
        assert(s.drop_first().subrange(s.len() - 1 - m, s.len() - 1) =~= s.subrange(s.len() - m, s.len() as int));
    } else {
        assert(s.drop_first() =~= s.subrange(s.len() - m, s.len() as int));
    }
}

impl AuditLog {
    /// At most `max_entries` entries are held.
    pub closed spec fn wf(&self) -> bool {
        self.entries@.len() <= self.max_entries
    }

    /// Load the log from the lines of its file (`None` for a line that could not be read),
    /// dropping entries older than the retention period; at most [`MAX_ENTRIES`] are kept.
    pub fn open(lines: &Vec<Option<AuditEntry>>, now_unix: u64) -> (r: AuditLog)
        ensures
            r.wf(),
            r@.entries == newest(
                fresh(option_views(lines@), sat_sub(now_unix, RETENTION_SECS)),
                MAX_ENTRIES as int,
            ),
            r@.max_entries == MAX_ENTRIES,
            r@.lines_on_disk == lines@.len(),
    {
        Self::open_with_limit(lines, now_unix, MAX_ENTRIES)
    }

    /// [`AuditLog::open`] with another bound on the number of entries.
    pub fn open_with_limit(lines: &Vec<Option<AuditEntry>>, now_unix: u64, max_entries: usize) -> (r:
        AuditLog)
        ensures
            r.wf(),
            r@.entries == newest(
                fresh(option_views(lines@), sat_sub(now_unix, RETENTION_SECS)),
                max_entries as int,
            ),
            r@.max_entries == max_entries,
            r@.lines_on_disk == lines@.len(),
    {
        let cutoff = now_unix.saturating_sub(RETENTION_SECS);
        let mut entries: VecDeque<AuditEntry> = VecDeque::new();
        let mut i: usize = 0;
        while i < lines.len()
            invariant
                i <= lines@.len(),
                cutoff == sat_sub(now_unix, RETENTION_SECS),
                entries@.len() <= max_entries,
                entry_views(entries@) == newest(
                    fresh(option_views(lines@.subrange(0, i as int)), cutoff),
                    max_entries as int,
                ),
            decreases lines@.len() - i,
        {
            let ghost before = entry_views(entries@);
            let ghost prefix = option_views(lines@.subrange(0, i as int));
            proof {
                assert(option_views(lines@.subrange(0, i + 1)).drop_last() =~= prefix);
            }
            match &lines[i] {
                Some(e) => {
                    if e.time_unix >= cutoff {
                        entries.push_back(e.duplicate());
                        proof {
                            lemma_newest_push(fresh(prefix, cutoff), e@, max_entries as int);
                            assert(entry_views(entries@) =~= before.push(e@));
                        }
                        if entries.len() > max_entries {
                            let ghost pushed = entry_views(entries@);
                            entries.pop_front();
                            assert(entry_views(entries@) =~= pushed.drop_first());
                        }
                    }
                },
                None => {},
            }
            i = i + 1;
        }
        assert(lines@.subrange(0, lines@.len() as int) =~= lines@);
        let r = AuditLog { entries, max_entries, lines_on_disk: lines.len() };
        assert(r@.entries == entry_views(entries@));
        r
    }

    /// The file holds other lines than the entries kept: rewrite it with
    /// [`AuditLog::stored`], then call [`AuditLog::compacted`].
    pub fn compaction_due(&self) -> (r: bool)
        ensures
            r == (self@.lines_on_disk != self@.entries.len()),
    {
        self.lines_on_disk != self.entries.len()
    }

    /// The file now holds exactly the entries.
    pub fn compacted(&mut self)
        ensures
            final(self)@ == (AuditLogView { lines_on_disk: old(self)@.entries.len() as usize, ..old(self)@ }),
            final(self).wf() == old(self).wf(),
    {
        self.lines_on_disk = self.entries.len();
    }

    /// One line was appended to the file.
    pub fn appended(&mut self)
        ensures
            final(self)@ == (AuditLogView {
                lines_on_disk: if old(self)@.lines_on_disk < usize::MAX {
                    (old(self)@.lines_on_disk + 1) as usize
                } else {
                    usize::MAX
                },
                ..old(self)@
            }),
            final(self).wf() == old(self).wf(),
    {
        self.lines_on_disk = self.lines_on_disk.saturating_add(1);
    }

    /// Record an event: stored text is clipped, entries past the retention period before it go,
    /// and only the newest `max_entries` stay. Says whether the file gets the entry appended or
    /// rewritten whole (when it would reach twice the entry limit).
    pub fn record(&mut self, entry: AuditEntry) -> (r: WriteAction)
        requires
            old(self).wf(),
        ensures
            final(self).wf(),
            final(self)@.entries == record_step(old(self)@.entries, entry@, old(self)@.max_entries as int),
            final(self)@.max_entries == old(self)@.max_entries,
            final(self)@.lines_on_disk == old(self)@.lines_on_disk,
            r == (if old(self)@.lines_on_disk + 1 >= 2 * old(self)@.max_entries {
                WriteAction::Compact
            } else {
                WriteAction::Append
            }),
    {
        let ghost s0 = entry_views(self.entries@);
        let ghost e0 = entry@;
        let name = clip(entry.peer_name.as_str());
        let detail = clip(entry.detail.as_str());
        let entry = AuditEntry { peer_name: name, detail, ..entry };
        assert(entry@ == clipped_entry(e0));
        let cutoff = entry.time_unix.saturating_sub(RETENTION_SECS);
        while self.entries.len() > 0 && self.entries[0].time_unix < cutoff
            invariant
                drop_stale(entry_views(self.entries@), cutoff) == drop_stale(s0, cutoff),
                self.entries@.len() <= self.max_entries,
                self.max_entries == old(self).max_entries,
                self.lines_on_disk == old(self).lines_on_disk,
            decreases self.entries@.len(),
        {
            let ghost cur = entry_views(self.entries@);
            self.entries.pop_front();
            assert(entry_views(self.entries@) =~= cur.drop_first());
        }
        let ghost dropped = entry_views(self.entries@);
        assert(dropped == drop_stale(s0, cutoff));
        self.entries.push_back(entry);
        assert(entry_views(self.entries@) =~= dropped.push(entry@));
        let ghost target = dropped.push(entry@);
        assert(newest(target, self.max_entries as int) == newest(entry_views(self.entries@), self.max_entries as int));
        while self.entries.len() > self.max_entries
            invariant
                newest(entry_views(self.entries@), self.max_entries as int) == newest(target, self.max_entries as int),
                self.max_entries == old(self).max_entries,
                self.lines_on_disk == old(self).lines_on_disk,
            decreases self.entries@.len(),
        {
            let ghost cur = entry_views(self.entries@);
            self.entries.pop_front();
            assert(entry_views(self.entries@) =~= cur.drop_first());
            proof {
                lemma_newest_drop_first(cur, self.max_entries as int);
            }
        }
        assert(newest(entry_views(self.entries@), self.max_entries as int) == entry_views(self.entries@));
        if (self.lines_on_disk as u128) + 1 >= 2 * (self.max_entries as u128) {
            WriteAction::Compact
        } else {
            WriteAction::Append
        }
    }

    /// Entries, newest first.
    pub fn entries(&self) -> (r: Vec<AuditEntry>)
        ensures
            entry_views(r@) == self@.entries.reverse(),
    {
        let n = self.entries.len();
        let mut out: Vec<AuditEntry> = Vec::new();
        let mut i: usize = 0;
        while i < n
            invariant
                i <= n == self.entries@.len(),
                entry_views(out@) == entry_views(self.entries@).reverse().subrange(0, i as int),
            decreases n - i,
        {
            let ghost before = out@;
            let d = self.entries[n - 1 - i].duplicate();
            out.push(d);
            assert(entry_views(out@) =~= entry_views(before).push(d@));
            assert(entry_views(out@) =~= entry_views(self.entries@).reverse().subrange(0, i + 1));
            i = i + 1;
        }
        assert(entry_views(self.entries@).reverse().subrange(0, n as int) =~= entry_views(self.entries@).reverse());
        out
    }

    /// Entries, oldest first: what the file holds after a rewrite.
    pub fn stored(&self) -> (r: Vec<AuditEntry>)
        ensures
            entry_views(r@) == self@.entries,
    {
        let n = self.entries.len();
        let mut out: Vec<AuditEntry> = Vec::new();
        let mut i: usize = 0;
        while i < n
            invariant
                i <= n == self.entries@.len(),
                entry_views(out@) == entry_views(self.entries@).subrange(0, i as int),
            decreases n - i,
        {
            let ghost before = out@;
            let d = self.entries[i].duplicate();
            out.push(d);
            assert(entry_views(out@) =~= entry_views(before).push(d@));
            assert(entry_views(out@) =~= entry_views(self.entries@).subrange(0, i + 1));
            i = i + 1;
        }
        assert(entry_views(self.entries@).subrange(0, n as int) =~= entry_views(self.entries@));
        out
    }

    /// Delete every entry (the shell removes the file first). A `LogCleared` entry records that
    /// it happened.
    pub fn clear(&mut self, now_unix: u64) -> (r: WriteAction)
        requires
            old(self).wf(),
        ensures
            final(self).wf(),
            final(self)@.entries == newest(
                seq![
                    AuditEntryView {
                        time_unix: now_unix,
                        kind: AuditKind::LogCleared,
                        peer_name: Seq::empty(),
                        peer_code: Seq::empty(),
                        route: None,
                        detail: Seq::empty(),
                    },
                ],
                old(self)@.max_entries as int,
            ),
            final(self)@.max_entries == old(self)@.max_entries,
            final(self)@.lines_on_disk == 0,
            r == (if 1 >= 2 * old(self)@.max_entries {
                WriteAction::Compact
            } else {
                WriteAction::Append
            }),
    {
        self.entries.clear();
        self.lines_on_disk = 0;
        let e = AuditEntry::new(now_unix, AuditKind::LogCleared);
        proof {
            assert(entry_views(self.entries@) =~= Seq::<AuditEntryView>::empty());
            assert(drop_stale(Seq::<AuditEntryView>::empty(), sat_sub(now_unix, RETENTION_SECS)) =~= Seq::<AuditEntryView>::empty());
            assert(Seq::<AuditEntryView>::empty().push(clipped_entry(e@)) =~= seq![clipped_entry(e@)]);
            assert(clipped(Seq::<char>::empty()) =~= Seq::<char>::empty());
            assert(clipped_entry(e@) == e@);
        }
        self.record(e)
    }
}

/// A recorded event is the newest entry, stored clipped, and the log stays within its bound.
pub proof fn lemma_recorded_entry_is_newest(s: Seq<AuditEntryView>, e: AuditEntryView, max: int)
    requires
        max >= 1,
    ensures
        record_step(s, e, max).len() <= max,
        record_step(s, e, max).len() >= 1,
        record_step(s, e, max).last() == clipped_entry(e),
        clipped_entry(e).peer_name.len() <= MAX_FIELD_CHARS,
        clipped_entry(e).detail.len() <= MAX_FIELD_CHARS,
{
    let kept = drop_stale(s, sat_sub(e.time_unix, RETENTION_SECS)).push(clipped_entry(e));
    if kept.len() > max {
        assert(record_step(s, e, max) == kept.subrange(kept.len() - max, kept.len() as int));
    }
}

proof fn lemma_fresh_is_recent(lines: Seq<Option<AuditEntryView>>, cutoff: u64)
    ensures
        forall|i: int| 0 <= i < fresh(lines, cutoff).len() ==> #[trigger] fresh(lines, cutoff)[i].time_unix >= cutoff,
    decreases lines.len(),
{
    if lines.len() > 0 {
        lemma_fresh_is_recent(lines.drop_last(), cutoff);
    }
}

/// A loaded log holds no entry older than the retention period allows, and no more entries
/// than its bound.
pub proof fn lemma_loaded_entries_are_recent(lines: Seq<Option<AuditEntryView>>, now_unix: u64, max: int)
    requires
        max >= 0,
    ensures
        newest(fresh(lines, sat_sub(now_unix, RETENTION_SECS)), max).len() <= max,
        forall|i: int|
            0 <= i < newest(fresh(lines, sat_sub(now_unix, RETENTION_SECS)), max).len() ==> (
            #[trigger] newest(fresh(lines, sat_sub(now_unix, RETENTION_SECS)), max)[i]).time_unix
                >= sat_sub(now_unix, RETENTION_SECS),
{
    let cutoff = sat_sub(now_unix, RETENTION_SECS);
    let f = fresh(lines, cutoff);
    lemma_fresh_is_recent(lines, cutoff);
    assert forall|i: int| 0 <= i < newest(f, max).len() implies (#[trigger] newest(f, max)[i]).time_unix >= cutoff by {
        if f.len() > max {
            assert(newest(f, max)[i] == f[f.len() - max + i]);
        }
    }
}

/// The log's entries after recording each of `es` in order, starting from `s`.
pub open spec fn record_all(s: Seq<AuditEntryView>, es: Seq<AuditEntryView>, max: int) -> Seq<
    AuditEntryView,
>
    decreases es.len(),
{
    if es.len() == 0 {
        s
    } else {
        record_step(record_all(s, es.drop_last(), max), es.last(), max)
    }
}

/// Recorded in time order, all within one retention period, and no more than the bound: a
/// new log holds every entry, clipped, oldest first, so [`AuditLog::entries`] lists them newest
/// first.
pub proof fn lemma_records_kept_in_order(es: Seq<AuditEntryView>, max: int)
    requires
        es.len() <= max,
        forall|i: int, j: int| 0 <= i < j < es.len() ==> es[i].time_unix <= es[j].time_unix,
        forall|i: int| 0 <= i < es.len() ==> (#[trigger] es[i]).time_unix <= es[0].time_unix + RETENTION_SECS,
    ensures
        record_all(Seq::empty(), es, max) == es.map_values(|e: AuditEntryView| clipped_entry(e)),
    decreases es.len(),
{
    if es.len() > 0 {
        let p = es.drop_last();
        assert forall|i: int| 0 <= i < p.len() implies (#[trigger] p[i]).time_unix <= p[0].time_unix
            + RETENTION_SECS by {
            assert(p[i] == es[i] && p[0] == es[0]);
        }
        lemma_records_kept_in_order(p, max);
        let before = p.map_values(|e: AuditEntryView| clipped_entry(e));
        let last = es.last();
        let cutoff = sat_sub(last.time_unix, RETENTION_SECS);
        if before.len() > 0 {
            assert(before[0].time_unix == es[0].time_unix);
            assert(before[0].time_unix >= cutoff);
        }
        assert(drop_stale(before, cutoff) == before);
        assert(before.push(clipped_entry(last)) =~= es.map_values(
            |e: AuditEntryView| clipped_entry(e),
        ));
    }
}

/// Clearing leaves exactly the `LogCleared` entry (for a log that holds at least one entry),
/// and the file the shell then writes, reloaded a second later, gives the same entry back.
pub proof fn lemma_clear_then_reload(now_unix: u64, max: int)
    requires
        max >= 1,
        now_unix < u64::MAX,
    ensures
        ({
            let e = AuditEntryView {
                time_unix: now_unix,
                kind: AuditKind::LogCleared,
                peer_name: Seq::empty(),
                peer_code: Seq::empty(),
                route: None,
                detail: Seq::empty(),
            };
            &&& newest(seq![e], max) == seq![e]
            &&& newest(
                fresh(seq![Some(e)], sat_sub((now_unix + 1) as u64, RETENTION_SECS)),
                MAX_ENTRIES as int,
            ) == seq![e]
        }),
{
    let e = AuditEntryView {
        time_unix: now_unix,
        kind: AuditKind::LogCleared,
        peer_name: Seq::empty(),
        peer_code: Seq::empty(),
        route: None,
        detail: Seq::empty(),
    };
    let lines = seq![Some(e)];
    assert(lines.drop_last() =~= Seq::<Option<AuditEntryView>>::empty());
    let cutoff = sat_sub((now_unix + 1) as u64, RETENTION_SECS);
    assert(fresh(lines.drop_last(), cutoff) =~= Seq::<AuditEntryView>::empty());
    assert(lines.last() == Some(e));
    assert(e.time_unix >= cutoff);
    assert(Seq::<AuditEntryView>::empty().push(e) =~= seq![e]);
    assert(fresh(lines, sat_sub((now_unix + 1) as u64, RETENTION_SECS)) =~= seq![e]);
}
proof fn lemma_drop_stale_suffix(s: Seq<AuditEntryView>, cutoff: u64)
    ensures
        0 <= s.len() - drop_stale(s, cutoff).len() <= s.len(),
        drop_stale(s, cutoff) == s.subrange(s.len() - drop_stale(s, cutoff).len(), s.len() as int),
    decreases s.len(),
{
    if s.len() > 0 && s[0].time_unix < cutoff {
        lemma_drop_stale_suffix(s.drop_first(), cutoff);
        let d = drop_stale(s.drop_first(), cutoff);
        assert(s.drop_first().subrange(s.len() - 1 - d.len(), s.len() - 1) =~= s.subrange(
            s.len() - d.len(),
            s.len() as int,
        ));
    } else {
        assert(s.subrange(0, s.len() as int) =~= s);
    }
}

/// Recording keeps the newest old entries: the log afterwards is the old one less some of its
/// oldest entries, then the new entry (clipped), so the listing newest first starts with the
/// new entry followed by the old listing cut short.
pub proof fn lemma_record_keeps_newest_old(s: Seq<AuditEntryView>, e: AuditEntryView, max: int)
    requires
        max >= 1,
    ensures
        exists|k: int|
            0 <= k <= s.len() && #[trigger] record_step(s, e, max) == s.subrange(k, s.len() as int).push(
                clipped_entry(e),
            ),
{
    let cutoff = sat_sub(e.time_unix, RETENTION_SECS);
    lemma_drop_stale_suffix(s, cutoff);
    let d = drop_stale(s, cutoff);
    let k1 = s.len() - d.len();
    let t = d.push(clipped_entry(e));
    if t.len() <= max {
        assert(record_step(s, e, max) == s.subrange(k1, s.len() as int).push(clipped_entry(e)));
    } else {
        let k = k1 + (t.len() - max);
        assert(t.subrange(t.len() - max, t.len() as int) =~= s.subrange(k, s.len() as int).push(
            clipped_entry(e),
        ));
        assert(record_step(s, e, max) == s.subrange(k, s.len() as int).push(clipped_entry(e)));
    }
}
} // verus!

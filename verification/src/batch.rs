//! A batch download over the library: which tracks it works on, the tallies
//! it keeps, and the lines its activity log shows for each track and at the
//! end.
use vstd::prelude::*;
use crate::download::{DownloadEvent, DownloadOutcome};
use crate::model::{wants, DownloadMode, LyricsStatus, Track};
use crate::providers::{decimal, decimal_of, provider_label, push_all, ProviderName};
use crate::text::{chars_of, string_of};

verus! {

/// The tracks of `tracks` that `mode` downloads, in order.
pub open spec fn candidates(tracks: Seq<Track>, mode: DownloadMode) -> Seq<Track> {
    tracks.filter(|t: Track| wants(t.status, mode))
}

/// The tracks a batch in `mode` works on.
pub fn download_candidates(tracks: &[Track], mode: DownloadMode) -> (r: Vec<Track>)
    ensures
        r@ == candidates(tracks@, mode),
{
    let mut out: Vec<Track> = Vec::new();
    let mut i: usize = 0;
    while i < tracks.len()
        invariant
            i <= tracks@.len(),
            out@ == tracks@.take(i as int).filter(|t: Track| wants(t.status, mode)),
        decreases tracks.len() - i,
    {
        proof {
            reveal(Seq::filter);
            assert(tracks@.take(i + 1).drop_last() =~= tracks@.take(i as int));
            assert(tracks@.take(i + 1).last() == tracks@[i as int]);
        }
        if tracks[i].should_download(mode) {
            out.push(tracks[i].copy());
        }
        i += 1;
    }
    assert(tracks@.take(i as int) =~= tracks@);
    out
}

/// The tallies of a batch: how many tracks it has, has done and has left,
/// and how the ones done turned out.
pub struct BatchStats {
    pub total: usize,
    pub processed: usize,
    pub remaining: usize,
    pub synced: usize,
    pub plain: usize,
    pub not_found: usize,
    pub errors: usize,
}

/// The log line of one track: its badge, the badge's kind and what was
/// done; whether the batch stops; and the status the track's lyrics now
/// have, when lyrics were written.
pub struct BatchEntry {
    pub badge_text: String,
    pub badge_type: String,
    pub action_text: String,
    pub stopped: bool,
    pub written: Option<(LyricsStatus, ProviderName)>,
}

/// What a track's download result means for the log and the tallies.
pub open spec fn entry_for(outcome: Result<DownloadOutcome, Seq<char>>) -> (Seq<char>, Seq<char>, Seq<char>) {
    match outcome {
        Ok(DownloadOutcome::Downloaded { provider, synced }) => if synced {
            ("SYNCED"@, "synced"@, "\u{2192} Saved synced lyrics from "@ + provider_label(provider))
        } else {
            ("PLAIN"@, "plain"@, "\u{2192} Saved plain lyrics from "@ + provider_label(provider))
        },
        Ok(DownloadOutcome::NotFound) => ("NOT FOUND"@, "missing"@, "\u{2192} No matching lyrics found"@),
        Ok(DownloadOutcome::Skipped) => ("SKIPPED"@, "info"@, "\u{2192} Skipped (kept existing lyrics)"@),
        Ok(DownloadOutcome::Cancelled) => ("CANCELLED"@, "missing"@, "\u{2192} Cancelled by user"@),
        Err(message) => ("ERROR"@, "error"@, "\u{2192} Error: "@ + message),
    }
}

/// A track's download result with its error message by its characters.
pub open spec fn outcome_view(outcome: Result<DownloadOutcome, String>) -> Result<DownloadOutcome, Seq<char>> {
    match outcome {
        Ok(o) => Ok(o),
        Err(m) => Err(m@),
    }
}

impl BatchStats {
    /// Every count fits the batch: the tracks done and left make the whole,
    /// and the outcomes tallied are among those done.
    pub open spec fn wf(&self) -> bool {
        &&& self.processed + self.remaining == self.total
        &&& self.synced + self.plain + self.not_found + self.errors <= self.processed
    }

    /// A batch of `total` tracks, none done.
    pub fn new(total: usize) -> (r: Self)
        ensures
            r.wf(),
            r.total == total,
            r.remaining == total,
            r.processed == 0,
            r.synced == 0 && r.plain == 0 && r.not_found == 0 && r.errors == 0,
    {
        BatchStats { total, processed: 0, remaining: total, synced: 0, plain: 0, not_found: 0, errors: 0 }
    }

    /// Records the result of the track at `index` (counted from 0): the
    /// outcome's tally goes up by one, `index + 1` tracks are done, and the
    /// log line says what happened.
    pub fn record(&mut self, index: usize, outcome: &Result<DownloadOutcome, String>) -> (r: BatchEntry)
        requires
            old(self).wf(),
            old(self).processed <= index < old(self).total,
        ensures
            final(self).wf(),
            final(self).total == old(self).total,
            final(self).processed == index + 1,
            final(self).remaining == old(self).total - (index + 1),
            final(self).synced == old(self).synced + if outcome matches Ok(DownloadOutcome::Downloaded { synced: true, .. }) {
                1int
            } else {
                0int
            },
            final(self).plain == old(self).plain + if outcome matches Ok(DownloadOutcome::Downloaded { synced: false, .. }) {
                1int
            } else {
                0int
            },
            final(self).not_found == old(self).not_found + if outcome matches Ok(DownloadOutcome::NotFound) {
                1int
            } else {
                0int
            },
            final(self).errors == old(self).errors + if outcome is Err {
                1int
            } else {
                0int
            },
            (r.badge_text@, r.badge_type@, r.action_text@) == entry_for(outcome_view(*outcome)),
            r.stopped == (outcome matches Ok(DownloadOutcome::Cancelled)),
            r.written == match *outcome {
                Ok(DownloadOutcome::Downloaded { provider, synced }) => Some(
                    (if synced { LyricsStatus::Synced } else { LyricsStatus::Plain }, provider),
                ),
                _ => None,
            },
    {
        let entry = match outcome {
            Ok(DownloadOutcome::Downloaded { provider, synced }) => {
                if *synced {
                    self.synced = self.synced + 1;
                    let mut action = chars_of("\u{2192} Saved synced lyrics from ");
                    push_all(&mut action, &chars_of(provider.label().as_str()));
                    BatchEntry {
                        badge_text: string_of(&chars_of("SYNCED")),
                        badge_type: string_of(&chars_of("synced")),
                        action_text: string_of(&action),
                        stopped: false,
                        written: Some((LyricsStatus::Synced, *provider)),
                    }
                } else {
                    self.plain = self.plain + 1;
                    let mut action = chars_of("\u{2192} Saved plain lyrics from ");
                    push_all(&mut action, &chars_of(provider.label().as_str()));
                    BatchEntry {
                        badge_text: string_of(&chars_of("PLAIN")),
                        badge_type: string_of(&chars_of("plain")),
                        action_text: string_of(&action),
                        stopped: false,
                        written: Some((LyricsStatus::Plain, *provider)),
                    }
                }
            },
            Ok(DownloadOutcome::NotFound) => {
                self.not_found = self.not_found + 1;
                BatchEntry {
                    badge_text: string_of(&chars_of("NOT FOUND")),
                    badge_type: string_of(&chars_of("missing")),
                    action_text: string_of(&chars_of("\u{2192} No matching lyrics found")),
                    stopped: false,
                    written: None,
                }
            },
            Ok(DownloadOutcome::Skipped) => BatchEntry {
                badge_text: string_of(&chars_of("SKIPPED")),
                badge_type: string_of(&chars_of("info")),
                action_text: string_of(&chars_of("\u{2192} Skipped (kept existing lyrics)")),
                stopped: false,
                written: None,
            },
            Ok(DownloadOutcome::Cancelled) => BatchEntry {
                badge_text: string_of(&chars_of("CANCELLED")),
                badge_type: string_of(&chars_of("missing")),
                action_text: string_of(&chars_of("\u{2192} Cancelled by user")),
                stopped: true,
                written: None,
            },
            Err(message) => {
                self.errors = self.errors + 1;
                let mut action = chars_of("\u{2192} Error: ");
                push_all(&mut action, &chars_of(message.as_str()));
                BatchEntry {
                    badge_text: string_of(&chars_of("ERROR")),
                    badge_type: string_of(&chars_of("error")),
                    action_text: string_of(&action),
                    stopped: false,
                    written: None,
                }
            },
        };
        self.processed = index + 1;
        self.remaining = self.total - (index + 1);
        entry
    }
}

/// The progress line of the track at `index` of `total`.
pub fn progress_text(index: usize, total: usize) -> (r: String)
    requires
        index < total,
    ensures
        r@ == "Song "@ + decimal((index + 1) as nat) + " of "@ + decimal(total as nat) + " ("@ + decimal(
            (total - index) as nat,
        ) + " remaining)"@,
{
    let mut out = chars_of("Song ");
    push_all(&mut out, &decimal_of((index + 1) as u128));
    push_all(&mut out, &chars_of(" of "));
    push_all(&mut out, &decimal_of(total as u128));
    push_all(&mut out, &chars_of(" ("));
    push_all(&mut out, &decimal_of((total - index) as u128));
    push_all(&mut out, &chars_of(" remaining)"));
    string_of(&out)
}

/// The line naming the track being downloaded: `<artist> — <title>`.
pub fn current_track_text(track: &Track) -> (r: String)
    ensures
        r@ == track.artist@ + " \u{2014} "@ + track.title@,
{
    let mut out = chars_of(track.artist.as_str());
    push_all(&mut out, &chars_of(" \u{2014} "));
    push_all(&mut out, &chars_of(track.title.as_str()));
    string_of(&out)
}

/// The closing log line of a batch of `total` tracks.
pub fn finish_text(stats: &BatchStats, total: usize) -> (r: String)
    ensures
        r@ == "Processed "@ + decimal(stats.processed as nat) + "/"@ + decimal(total as nat) + " tracks. Synced: "@
            + decimal(stats.synced as nat) + ", Plain: "@ + decimal(stats.plain as nat) + ", Not Found: "@ + decimal(
            stats.not_found as nat,
        ) + ", Errors: "@ + decimal(stats.errors as nat),
{
    let mut out = chars_of("Processed ");
    push_all(&mut out, &decimal_of(stats.processed as u128));
    push_all(&mut out, &chars_of("/"));
    push_all(&mut out, &decimal_of(total as u128));
    push_all(&mut out, &chars_of(" tracks. Synced: "));
    push_all(&mut out, &decimal_of(stats.synced as u128));
    push_all(&mut out, &chars_of(", Plain: "));
    push_all(&mut out, &decimal_of(stats.plain as u128));
    push_all(&mut out, &chars_of(", Not Found: "));
    push_all(&mut out, &decimal_of(stats.not_found as u128));
    push_all(&mut out, &chars_of(", Errors: "));
    push_all(&mut out, &decimal_of(stats.errors as u128));
    string_of(&out)
}

/// The part of the log line one provider's answer adds: found (synced or
/// plain), failed, or not found; `None` for events about no answer.
pub open spec fn answer_part(e: DownloadEvent) -> Option<Seq<char>> {
    match e {
        DownloadEvent::ProviderFound { provider, synced } => Some(
            "\u{2713} "@ + provider_label(provider) + if synced {
                " (synced)"@
            } else {
                " (plain)"@
            },
        ),
        DownloadEvent::ProviderFailed { provider, .. } => Some("\u{26a0} "@ + provider_label(provider) + " (error)"@),
        DownloadEvent::ProviderNotFound { provider } => Some("\u{2717} "@ + provider_label(provider)),
        _ => None,
    }
}

/// The parts of the first `n` events, joined by `  |  `.
pub open spec fn answer_parts(events: Seq<DownloadEvent>, n: int) -> Seq<Seq<char>>
    decreases n,
{
    if n <= 0 {
        Seq::empty()
    } else {
        let rest = answer_parts(events, n - 1);
        match answer_part(events[n - 1]) {
            Some(p) => rest.push(p),
            None => rest,
        }
    }
}

pub open spec fn joined(parts: Seq<Seq<char>>) -> Seq<char>
    decreases parts.len(),
{
    if parts.len() == 0 {
        Seq::empty()
    } else if parts.len() == 1 {
        parts[0]
    } else {
        joined(parts.drop_last()) + "  |  "@ + parts.last()
    }
}

fn answer_part_of(e: &DownloadEvent) -> (r: Option<Vec<char>>)
    ensures
        match answer_part(*e) {
            Some(p) => r is Some && r->0@ == p,
            None => r is None,
        },
{
    match e {
        DownloadEvent::ProviderFound { provider, synced } => {
            let mut out = chars_of("\u{2713} ");
            push_all(&mut out, &chars_of(provider.label().as_str()));
            if *synced {
                push_all(&mut out, &chars_of(" (synced)"));
            } else {
                push_all(&mut out, &chars_of(" (plain)"));
            }
            Some(out)
        },
        DownloadEvent::ProviderFailed { provider, .. } => {
            let mut out = chars_of("\u{26a0} ");
            push_all(&mut out, &chars_of(provider.label().as_str()));
            push_all(&mut out, &chars_of(" (error)"));
            Some(out)
        },
        DownloadEvent::ProviderNotFound { provider } => {
            let mut out = chars_of("\u{2717} ");
            push_all(&mut out, &chars_of(provider.label().as_str()));
            Some(out)
        },
        _ => None,
    }
}

/// What the providers answered for one track, from its download's events:
/// each answer's part joined by `  |  `, or `No provider responses`.
pub fn provider_summary(events: &[DownloadEvent]) -> (r: String)
    ensures
        r@ == if answer_parts(events@, events@.len() as int).len() == 0 {
            "No provider responses"@
        } else {
            joined(answer_parts(events@, events@.len() as int))
        },
{
    let mut out: Vec<char> = Vec::new();
    let mut count: usize = 0;
    let mut i: usize = 0;
    while i < events.len()
        invariant
            i <= events@.len(),
            count == answer_parts(events@, i as int).len(),
            count <= i,
            count == 0 ==> out@ == Seq::<char>::empty(),
            count > 0 ==> out@ == joined(answer_parts(events@, i as int)),
        decreases events.len() - i,
    {
        let ghost before = answer_parts(events@, i as int);
        match answer_part_of(&events[i]) {
            Some(part) => {
                proof {
                    let after = before.push(part@);
                    assert(answer_parts(events@, i + 1) == after);
                    assert(after.drop_last() =~= before);
                    assert(after.last() == part@);
                }
                if count > 0 {
                    push_all(&mut out, &chars_of("  |  "));
                }
                push_all(&mut out, &part);
                count += 1;
            },
            None => {},
        }
        i += 1;
    }
    if count == 0 {
        string_of(&chars_of("No provider responses"))
    } else {
        string_of(&out)
    }
}

} // verus!

//! Saving and loading projects: what is written to which file, and how a project is put together
//! from what is read.

use std::collections::hash_map::DefaultHasher;
use std::collections::HashMap;
use std::hash::Hasher;
use vstd::prelude::*;
use vstd::std_specs::hash::DefaultHasherAdditionalSpecFns;
use vstd::string::StringExecFns;
use crate::audio::{Clip, ClipView};
use crate::sample::Sample;
use crate::text::number;
use crate::time::Secs;
use crate::track::{Switches, Track, TrackView};

verus! {

/// A project as it is saved.
pub struct ProjectFile {
    pub rate: u32,
    pub tracks: Vec<TrackEntry>,
}

/// A track as it is saved.
pub struct TrackEntry {
    pub clips: Vec<ClipEntry>,
    pub muted: bool,
    pub gain: Sample,
}

/// A clip as it is saved.
pub struct ClipEntry {
    pub name: String,
    /// Path to WAV file relative to the project directory
    pub file: String,
    /// Original source file path (informational)
    pub source: Option<String>,
    pub offset: Secs,
    pub sample_rate: u32,
    pub channels: u32,
    pub gain: Sample,
}

/// What a [`ClipEntry`] holds.
#[verifier::ext_equal]
pub struct EntryView {
    pub name: Seq<char>,
    pub file: Seq<char>,
    pub source: Option<Seq<char>>,
    pub offset: Secs,
    pub sample_rate: u32,
    pub channels: u32,
    pub gain: Sample,
}

impl View for ClipEntry {
    type V = EntryView;

    open spec fn view(&self) -> EntryView {
        EntryView {
            name: self.name@,
            file: self.file@,
            source: crate::audio::text_of(self.source),
            offset: self.offset,
            sample_rate: self.sample_rate,
            channels: self.channels,
            gain: self.gain,
        }
    }
}

/// What each of some entries holds.
pub open spec fn entry_views(entries: Seq<ClipEntry>) -> Seq<EntryView> {
    entries.map_values(|e: ClipEntry| e@)
}

/// What a [`TrackEntry`] holds.
#[verifier::ext_equal]
pub struct TrackEntryView {
    pub clips: Seq<EntryView>,
    pub switches: Switches,
}

impl View for TrackEntry {
    type V = TrackEntryView;

    open spec fn view(&self) -> TrackEntryView {
        TrackEntryView {
            clips: entry_views(self.clips@),
            switches: Switches { muted: self.muted, gain: self.gain },
        }
    }
}

/// What a [`ProjectFile`] holds.
#[verifier::ext_equal]
pub struct ProjectView {
    pub rate: u32,
    pub tracks: Seq<TrackEntryView>,
}

impl View for ProjectFile {
    type V = ProjectView;

    open spec fn view(&self) -> ProjectView {
        ProjectView { rate: self.rate, tracks: self.tracks@.map_values(|t: TrackEntry| t@) }
    }
}

/// A WAV file that has to be written: the samples of a clip go to it.
pub struct WavFile {
    /// Path relative to the project directory
    pub path: String,
    pub track_idx: usize,
    pub clip_idx: usize,
}

/// The files that a project is saved to.
pub struct SavePlan {
    /// The directory of the WAV files, relative to the project directory
    pub audio_dir: String,
    pub wavs: Vec<WavFile>,
    pub project: ProjectFile,
}

/// The name of the directory for the audio of a project, by the name of the project's file.
pub open spec fn audio_dir_of(stem: Option<Seq<char>>) -> Seq<char> {
    match stem {
        Some(s) => s + "_audio"@,
        None => "project"@ + "_audio"@,
    }
}

/// The path of the WAV file with number `n`.
pub open spec fn wav_path(dir: Seq<char>, n: nat) -> Seq<char> {
    dir + "/"@ + crate::text::decimal(n) + ".wav"@
}

/// The bits of a sample value, by its rank.
pub open spec fn bits_of(s: Sample) -> u32 {
    if s >= 0 {
        s as u32
    } else {
        (0x8000_0000int + (-1 - s)) as u32
    }
}

/// A number in bytes, the lowest first.
pub open spec fn bytes_of(b: u32) -> Seq<u8> {
    seq![
        (b % 256) as u8,
        (b / 256 % 256) as u8,
        (b / 65536 % 256) as u8,
        (b / 16777216 % 256) as u8,
    ]
}

/// Some samples in bytes.
pub open spec fn sample_bytes(samples: Seq<Sample>) -> Seq<u8> {
    Seq::new(4 * samples.len(), |i: int| bytes_of(bits_of(samples[i / 4]))[i % 4])
}

/// The length of some bytes in bytes, the lowest first.
pub open spec fn length_bytes(n: nat) -> Seq<u8> {
    bytes_of((n % 0x1_0000_0000) as u32) + bytes_of((n / 0x1_0000_0000) as u32)
}

/// The hash of some samples: of the length of their bytes, and then of the bytes.
pub open spec fn hash_of(samples: Seq<Sample>) -> u64 {
    let bytes = sample_bytes(samples);
    DefaultHasher::spec_finish(seq![length_bytes(bytes.len()), bytes])
}

/// `bytemuck::cast_slice` gives the bytes of the words, those of the first word first, each in the
/// order in which the word holds them. Words of four bytes need no alignment, and their bytes come
/// out even, so that the cast does not panic.
#[verifier::external_body]
fn cast_words(words: &[[u8; 4]]) -> (r: &[u8])
    ensures
        r@.len() == 4 * words@.len(),
        forall|i: int| 0 <= i < r@.len() ==> #[trigger] r@[i] == words@[i / 4]@[i % 4],
{
    bytemuck::cast_slice(words)
}

/// The bits of a sample value.
fn sample_bits(s: Sample) -> (r: u32)
    ensures
        r == bits_of(s),
{
    if s >= 0 {
        s as u32
    } else {
        (0x8000_0000i64 + (-1 - s as i64)) as u32
    }
}

/// A number in bytes.
fn word_of(b: u32) -> (r: [u8; 4])
    ensures
        r@ == bytes_of(b),
{
    let word: [u8; 4] = [
        (b % 256) as u8,
        (b / 256 % 256) as u8,
        (b / 65536 % 256) as u8,
        (b / 16777216 % 256) as u8,
    ];
    assert(word@ =~= bytes_of(b));
    word
}

/// The hash of some samples, by their bytes.
pub fn hash_samples(samples: &[Sample]) -> (r: u64)
    ensures
        r == hash_of(samples@),
{
    let mut words: Vec<[u8; 4]> = Vec::new();
    let mut i: usize = 0;
    while i < samples.len()
        invariant
            i <= samples@.len(),
            words@.len() == i,
            forall|k: int| 0 <= k < i ==> (#[trigger] words@[k])@ == bytes_of(bits_of(samples@[k])),
        decreases samples@.len() - i,
    {
        words.push(word_of(sample_bits(samples[i])));
        i = i + 1;
    }
    let bytes: &[u8] = cast_words(words.as_slice());
    assert(bytes@ =~= sample_bytes(samples@));
    let len: u64 = bytes.len() as u64;
    let length: [[u8; 4]; 2] = [
        word_of((len % 0x1_0000_0000) as u32),
        word_of((len / 0x1_0000_0000) as u32),
    ];
    let prefix: &[u8] = cast_words(length.as_slice());
    assert(prefix@ =~= length_bytes(bytes@.len()));
    let mut hasher: DefaultHasher = DefaultHasher::new();
    hasher.write(prefix);
    hasher.write(bytes);
    assert(hasher@ =~= seq![length_bytes(bytes@.len()), sample_bytes(samples@)]);
    hasher.finish()
}

/// The name of the directory for the audio of a project, by the name of the project's file.
pub fn audio_dir_name(stem: Option<&str>) -> (r: String)
    ensures
        r@ == audio_dir_of(
            match stem {
                Some(s) => Some(s@),
                None => None,
            },
        ),
{
    let mut r: String = match stem {
        Some(s) => s.to_owned(),
        None => "project".to_owned(),
    };
    r.append("_audio");
    r
}

/// Which samples go to which WAV file: the number of the file by the hash of the samples, and for
/// each file the track and the clip that it is written from.
#[verifier::ext_equal]
pub struct Numbering {
    pub files: Map<u64, nat>,
    pub firsts: Seq<(usize, usize)>,
}

impl Numbering {
    /// No file yet.
    pub open spec fn none() -> Numbering {
        Numbering { files: Map::empty(), firsts: Seq::empty() }
    }

    /// With a file for clip `i` of track `t`, unless there is one for samples of its hash.
    pub open spec fn with(self, t: int, i: int, c: ClipView) -> Numbering {
        let h = hash_of(c.samples);
        if self.files.contains_key(h) {
            self
        } else {
            Numbering {
                files: self.files.insert(h, self.firsts.len()),
                firsts: self.firsts.push((t as usize, i as usize)),
            }
        }
    }

    /// With files for the clips of track `t`.
    pub open spec fn with_clips(self, t: int, clips: Seq<ClipView>) -> Numbering
        decreases clips.len(),
    {
        if clips.len() == 0 {
            self
        } else {
            self.with_clips(t, clips.drop_last()).with(t, clips.len() - 1, clips.last())
        }
    }

    /// The entry of a clip.
    pub open spec fn entry(self, c: ClipView, dir: Seq<char>) -> EntryView {
        EntryView {
            name: c.name,
            file: wav_path(dir, self.files[hash_of(c.samples)]),
            source: c.source_path,
            offset: c.offset_secs,
            sample_rate: c.sample_rate,
            channels: c.channels,
            gain: c.gain,
        }
    }

    /// The entries of some clips.
    pub open spec fn entries(self, clips: Seq<ClipView>, dir: Seq<char>) -> Seq<EntryView> {
        clips.map_values(|c: ClipView| self.entry(c, dir))
    }

    /// Whether there is a file for the samples of each of some clips.
    pub open spec fn covers(self, clips: Seq<ClipView>) -> bool {
        forall|i: int|
            0 <= i < clips.len() ==> self.files.contains_key(hash_of((#[trigger] clips[i]).samples))
    }

    /// Whether the other numbering has all files of this one.
    pub open spec fn grows_to(self, n: Numbering) -> bool {
        &&& forall|h: u64|
            self.files.contains_key(h) ==> #[trigger] n.files.contains_key(h) && n.files[h]
                == self.files[h]
    }
}

/// The numbering of the clips of some tracks.
pub open spec fn numbering(tracks: Seq<TrackView>) -> Numbering
    decreases tracks.len(),
{
    if tracks.len() == 0 {
        Numbering::none()
    } else {
        numbering(tracks.drop_last()).with_clips(tracks.len() - 1, tracks.last().clips)
    }
}

/// The file of a project with some tracks.
pub open spec fn saved_project(tracks: Seq<TrackView>, rate: u32, dir: Seq<char>) -> ProjectView {
    ProjectView {
        rate,
        tracks: tracks.map_values(
            |t: TrackView|
                TrackEntryView {
                    clips: numbering(tracks).entries(t.clips, dir),
                    switches: t.switches(),
                },
        ),
    }
}

/// Whether the WAV files are those of the numbering.
pub open spec fn writes(wavs: Seq<WavFile>, n: Numbering, dir: Seq<char>) -> bool {
    &&& wavs.len() == n.firsts.len()
    &&& forall|k: int|
        0 <= k < wavs.len() ==> (#[trigger] wavs[k]).path@ == wav_path(dir, k as nat) && (
        wavs[k].track_idx, wavs[k].clip_idx) == n.firsts[k]
}

/// The files of a numbering stay what they are when clips are added.
proof fn lemma_with_clips_grows(n: Numbering, t: int, clips: Seq<ClipView>)
    ensures
        n.grows_to(n.with_clips(t, clips)),
        n.with_clips(t, clips).covers(clips),
    decreases clips.len(),
{
    if clips.len() > 0 {
        let d = clips.drop_last();
        lemma_with_clips_grows(n, t, d);
        let less = n.with_clips(t, d);
        let more = n.with_clips(t, clips);
        assert forall|i: int| 0 <= i < clips.len() implies more.files.contains_key(
            hash_of((#[trigger] clips[i]).samples),
        ) by {
            if i < d.len() {
                assert(d[i] == clips[i]);
            } else {
                assert(clips[i] == clips.last());
            }
        }
    }
}

/// Entries do not change when files are added.
proof fn lemma_entries_stay(n: Numbering, m: Numbering, clips: Seq<ClipView>, dir: Seq<char>)
    requires
        n.covers(clips),
        n.grows_to(m),
    ensures
        m.covers(clips),
        m.entries(clips, dir) == n.entries(clips, dir),
{
    assert forall|i: int| 0 <= i < clips.len() implies m.files.contains_key(
        hash_of((#[trigger] clips[i]).samples),
    ) by {
        assert(n.files.contains_key(hash_of(clips[i].samples)));
    }
    assert forall|i: int| 0 <= i < clips.len() implies m.entry(clips[i], dir) == n.entry(
        clips[i],
        dir,
    ) by {
        assert(n.files.contains_key(hash_of(clips[i].samples)));
    }
    assert(m.entries(clips, dir) =~= n.entries(clips, dir));
}

/// The files that are planned so far.
struct Plan {
    files: HashMap<u64, u64>,
    wavs: Vec<WavFile>,
}

impl Plan {
    /// What is planned is the numbering.
    spec fn is(&self, n: Numbering, dir: Seq<char>) -> bool {
        &&& writes(self.wavs@, n, dir)
        &&& forall|h: u64|
            self.files@.contains_key(h) <==> #[trigger] n.files.contains_key(h)
        &&& forall|h: u64| #[trigger]
            n.files.contains_key(h) ==> self.files@[h] == n.files[h]
    }
}

/// The path of the WAV file with number `n`.
fn wav_name(dir: &String, n: u64) -> (r: String)
    ensures
        r@ == wav_path(dir@, n as nat),
{
    let mut r: String = dir.clone();
    r.append("/");
    let digits: String = number(n);
    r.append(digits.as_str());
    r.append(".wav");
    r
}

/// The entry of clip `i` of track `t`, with a file for it in the plan.
fn plan_clip(plan: &mut Plan, dir: &String, t: usize, i: usize, clip: &Clip, Ghost(n): Ghost<Numbering>) -> (r:
    ClipEntry)
    requires
        old(plan).is(n, dir@),
    ensures
        final(plan).is(n.with(t as int, i as int, clip@), dir@),
        r@ == n.with(t as int, i as int, clip@).entry(clip@, dir@),
{
    let h: u64 = hash_samples(clip.samples.as_slice());
    let ghost m = n.with(t as int, i as int, clip@);
    let known: Option<u64> = match plan.files.get(&h) {
        Some(k) => Some(*k),
        None => None,
    };
    let file: String = match known {
        Some(k) => {
            assert(n.files.contains_key(h));
            wav_name(dir, k)
        },
        None => {
            assert(!n.files.contains_key(h));
            let count: usize = plan.wavs.len();
            let path: String = wav_name(dir, count as u64);
            let again: String = path.clone();
            let ghost before = plan.wavs@;
            plan.wavs.push(WavFile { path: again, track_idx: t, clip_idx: i });
            plan.files.insert(h, count as u64);
            proof {
                assert forall|k: int| 0 <= k < plan.wavs@.len() implies (#[trigger] plan.wavs@[k]).path@
                    == wav_path(dir@, k as nat) && (plan.wavs@[k].track_idx, plan.wavs@[k].clip_idx)
                    == m.firsts[k] by {
                    if k < before.len() {
                        assert(plan.wavs@[k] == before[k]);
                    }
                }
            }
            path
        },
    };
    ClipEntry {
        name: clip.name.clone(),
        file,
        source: clip.source_path.clone(),
        offset: clip.offset_secs,
        sample_rate: clip.sample_rate,
        channels: clip.channels,
        gain: clip.gain,
    }
}

/// Plans how a project is saved, by the name of its file: identical samples share one WAV file.
pub fn save_project(stem: Option<&str>, tracks: &Vec<Track>, project_rate: u32) -> (r: SavePlan)
    ensures
        r.audio_dir@ == audio_dir_of(
            match stem {
                Some(s) => Some(s@),
                None => None,
            },
        ),
        writes(r.wavs@, numbering(crate::track::track_views(tracks@)), r.audio_dir@),
        r.project@ == saved_project(
            crate::track::track_views(tracks@),
            project_rate,
            r.audio_dir@,
        ),
{
    let audio_dir: String = audio_dir_name(stem);
    let ghost dir = audio_dir@;
    let ghost all = crate::track::track_views(tracks@);
    let mut plan: Plan = Plan { files: HashMap::new(), wavs: Vec::new() };
    let mut entries: Vec<TrackEntry> = Vec::new();
    let mut t: usize = 0;
    assert(all.subrange(0, 0) =~= Seq::empty());
    while t < tracks.len()
        invariant
            t <= tracks@.len(),
            all == crate::track::track_views(tracks@),
            dir == audio_dir@,
            plan.is(numbering(all.subrange(0, t as int)), dir),
            entries@.len() == t,
            forall|k: int|
                0 <= k < t ==> numbering(all.subrange(0, t as int)).covers(
                    (#[trigger] all[k]).clips,
                ),
            forall|k: int|
                0 <= k < t ==> (#[trigger] entries@[k])@ == (TrackEntryView {
                    clips: numbering(all.subrange(0, t as int)).entries(all[k].clips, dir),
                    switches: all[k].switches(),
                }),
        decreases tracks@.len() - t,
    {
        let ghost done = all.subrange(0, t as int);
        let ghost upto = all.subrange(0, t + 1);
        let ghost n = numbering(done);
        let ghost clips = all[t as int].clips;
        assert(upto.drop_last() =~= done);
        assert(upto.last() == all[t as int]);
        assert(all[t as int] == tracks@[t as int]@);
        let list: &Vec<Clip> = &tracks[t].clips;
        let mut clip_entries: Vec<ClipEntry> = Vec::new();
        let mut i: usize = 0;
        assert(clips.subrange(0, 0) =~= Seq::empty());
        assert(entry_views(clip_entries@) =~= n.with_clips(t as int, clips.subrange(0, 0)).entries(
            clips.subrange(0, 0),
            dir,
        ));
        while i < list.len()
            invariant
                i <= list@.len(),
                clips == crate::track::clip_views(list@),
                dir == audio_dir@,
                plan.is(n.with_clips(t as int, clips.subrange(0, i as int)), dir),
                entry_views(clip_entries@) == n.with_clips(
                    t as int,
                    clips.subrange(0, i as int),
                ).entries(clips.subrange(0, i as int), dir),
            decreases list@.len() - i,
        {
            let ghost some = clips.subrange(0, i as int);
            let ghost more = clips.subrange(0, i + 1);
            let ghost a = n.with_clips(t as int, some);
            let ghost b = n.with_clips(t as int, more);
            let ghost before = entry_views(clip_entries@);
            assert(more.drop_last() =~= some);
            assert(more.last() == clips[i as int]);
            assert(clips[i as int] == list@[i as int]@);
            let e: ClipEntry = plan_clip(&mut plan, &audio_dir, t, i, &list[i], Ghost(a));
            proof {
                lemma_with_clips_grows(n, t as int, some);
                lemma_entries_stay(a, b, some, dir);
            }
            clip_entries.push(e);
            assert(entry_views(clip_entries@) =~= b.entries(more, dir)) by {
                assert(entry_views(clip_entries@) =~= before.push(e@));
                assert(b.entries(more, dir) =~= b.entries(some, dir).push(
                    b.entry(clips[i as int], dir),
                ));
            }
            i = i + 1;
        }
        assert(clips.subrange(0, i as int) =~= clips);
        let ghost m = numbering(upto);
        let ghost before = entries@;
        entries.push(
            TrackEntry { clips: clip_entries, muted: tracks[t].muted, gain: tracks[t].gain },
        );
        proof {
            lemma_with_clips_grows(n, t as int, clips);
            assert(m == n.with_clips(t as int, clips));
            assert forall|k: int| 0 <= k < t + 1 implies m.covers((#[trigger] all[k]).clips) by {
                if k < t {
                    lemma_entries_stay(n, m, all[k].clips, dir);
                }
            }
            assert forall|k: int| 0 <= k < t + 1 implies (#[trigger] entries@[k])@ == (
            TrackEntryView {
                clips: m.entries(all[k].clips, dir),
                switches: all[k].switches(),
            }) by {
                if k < t {
                    assert(entries@[k] == before[k]);
                    assert(n.covers(all[k].clips));
                    lemma_entries_stay(n, m, all[k].clips, dir);
                }
            }
        }
        t = t + 1;
    }
    assert(all.subrange(0, t as int) =~= all);
    let project = ProjectFile { rate: project_rate, tracks: entries };
    assert(project@.tracks =~= saved_project(all, project_rate, dir).tracks);
    SavePlan { audio_dir, wavs: plan.wavs, project }
}

/// A clip put together from its entry and the samples of its file.
pub open spec fn loaded_clip<A: Fn(Sample, Sample) -> Sample, D: Fn(Sample, u32) -> Sample>(
    e: EntryView,
    samples: Seq<Sample>,
    plus: A,
    over: D,
) -> ClipView {
    let mono = crate::audio::mono_of(samples, e.channels, plus, over);
    ClipView {
        name: e.name,
        samples,
        sample_rate: e.sample_rate,
        channels: e.channels,
        mono,
        summary: crate::audio::summary_of(mono),
        offset_secs: e.offset,
        gain: e.gain,
        source_path: e.source,
    }
}

/// Tracks put together from their entries and the samples of their files.
pub open spec fn loaded_tracks<A: Fn(Sample, Sample) -> Sample, D: Fn(Sample, u32) -> Sample>(
    entries: Seq<TrackEntryView>,
    audio: Seq<Seq<Seq<Sample>>>,
    plus: A,
    over: D,
) -> Seq<TrackView> {
    Seq::new(
        entries.len(),
        |t: int|
            crate::track::track_with(
                Seq::new(
                    entries[t].clips.len(),
                    |i: int| loaded_clip(entries[t].clips[i], audio[t][i], plus, over),
                ),
                entries[t].switches,
            ),
    )
}

/// The samples of each clip of each track.
pub open spec fn audio_views(audio: Seq<Vec<Vec<Sample>>>) -> Seq<Seq<Seq<Sample>>> {
    audio.map_values(|t: Vec<Vec<Sample>>| t@.map_values(|c: Vec<Sample>| c@))
}

/// Whether there are samples for each entry, and each entry has channels.
pub open spec fn loadable(entries: Seq<TrackEntryView>, audio: Seq<Seq<Seq<Sample>>>) -> bool {
    &&& entries.len() == audio.len()
    &&& forall|t: int|
        0 <= t < entries.len() ==> (#[trigger] entries[t]).clips.len() == audio[t].len()
    &&& forall|t: int, i: int|
        0 <= t < entries.len() && 0 <= i < entries[t].clips.len() ==> (
        #[trigger] entries[t].clips[i]).channels > 0
}

/// Puts a track together from its entries and the samples of their files.
fn load_track<A: Fn(Sample, Sample) -> Sample, D: Fn(Sample, u32) -> Sample>(
    entries: &Vec<ClipEntry>,
    audio: &Vec<Vec<Sample>>,
    plus: &A,
    over: &D,
) -> (r: Vec<Clip>)
    requires
        entries@.len() == audio@.len(),
        forall|i: int|
            0 <= i < entries@.len() ==> (#[trigger] entries@[i]).channels > 0,
        crate::sample::is_function(*plus),
        crate::sample::is_function(*over),
    ensures
        crate::track::clip_views(r@) == Seq::new(
            entries@.len(),
            |i: int| loaded_clip(entries@[i]@, audio@[i]@, *plus, *over),
        ),
        crate::track::clips_ok(crate::track::clip_views(r@)),
{
    let ghost want = Seq::new(
        entries@.len(),
        |i: int| loaded_clip(entries@[i]@, audio@[i]@, *plus, *over),
    );
    let mut clips: Vec<Clip> = Vec::new();
    let mut i: usize = 0;
    assert(crate::track::clip_views(clips@) =~= want.subrange(0, 0));
    while i < entries.len()
        invariant
            i <= entries@.len(),
            entries@.len() == audio@.len(),
            forall|k: int|
                0 <= k < entries@.len() ==> (#[trigger] entries@[k]).channels > 0,
            crate::sample::is_function(*plus),
            crate::sample::is_function(*over),
            want == Seq::new(
                entries@.len(),
                |k: int| loaded_clip(entries@[k]@, audio@[k]@, *plus, *over),
            ),
            crate::track::clip_views(clips@) == want.subrange(0, i as int),
            crate::track::clips_ok(crate::track::clip_views(clips@)),
        decreases entries@.len() - i,
    {
        let ghost before = crate::track::clip_views(clips@);
        let e: &ClipEntry = &entries[i];
        let mono: Vec<Sample> = Clip::build_mono(audio[i].as_slice(), e.channels, plus, over);
        let summary: Vec<(Sample, Sample)> = Clip::build_summary(mono.as_slice());
        let samples: Vec<Sample> = audio[i].clone();
        assert(samples@ =~= audio@[i as int]@);
        let clip = Clip {
            name: e.name.clone(),
            samples,
            sample_rate: e.sample_rate,
            channels: e.channels,
            mono,
            summary,
            offset_secs: e.offset,
            gain: e.gain,
            source_path: e.source.clone(),
        };
        assert(clip@ == want[i as int]);
        assert(clip@.ok());
        clips.push(clip);
        i = i + 1;
        assert(crate::track::clip_views(clips@) =~= before.push(clip@));
        assert(crate::track::clip_views(clips@) =~= want.subrange(0, i as int));
    }
    assert(want.subrange(0, i as int) =~= want);
    clips
}

/// Puts a project together from what was read: its file, and for each clip the samples of its WAV
/// file. Returns the tracks and the sample rate of the project.
pub fn load_project<A: Fn(Sample, Sample) -> Sample, D: Fn(Sample, u32) -> Sample>(
    project: &ProjectFile,
    audio: &Vec<Vec<Vec<Sample>>>,
    plus: &A,
    over: &D,
) -> (r: (Vec<Track>, u32))
    requires
        loadable(project@.tracks, audio_views(audio@)),
        crate::sample::is_function(*plus),
        crate::sample::is_function(*over),
    ensures
        crate::track::track_views(r.0@) == loaded_tracks(
            project@.tracks,
            audio_views(audio@),
            *plus,
            *over,
        ),
        crate::track::tracks_ok(crate::track::track_views(r.0@)),
        r.1 == project@.rate,
{
    let ghost want = loaded_tracks(project@.tracks, audio_views(audio@), *plus, *over);
    let mut tracks: Vec<Track> = Vec::new();
    let mut t: usize = 0;
    assert(crate::track::track_views(tracks@) =~= want.subrange(0, 0));
    while t < project.tracks.len()
        invariant
            t <= project.tracks@.len(),
            loadable(project@.tracks, audio_views(audio@)),
            crate::sample::is_function(*plus),
            crate::sample::is_function(*over),
            want == loaded_tracks(project@.tracks, audio_views(audio@), *plus, *over),
            crate::track::track_views(tracks@) == want.subrange(0, t as int),
            crate::track::tracks_ok(crate::track::track_views(tracks@)),
        decreases project.tracks@.len() - t,
    {
        let ghost before = crate::track::track_views(tracks@);
        let entries: &Vec<ClipEntry> = &project.tracks[t].clips;
        proof {
            assert(project@.tracks[t as int] == project.tracks@[t as int]@);
            assert(project@.tracks[t as int].clips == entry_views(entries@));
            assert(audio_views(audio@)[t as int] == audio@[t as int]@.map_values(
                |c: Vec<Sample>| c@,
            ));
            assert(audio@.len() == project@.tracks.len());
            assert(entries@.len() == project@.tracks[t as int].clips.len());
            assert(audio@[t as int]@.len() == audio_views(audio@)[t as int].len());
            assert forall|i: int| 0 <= i < entries@.len() implies (#[trigger] entries@[i]).channels
                > 0 by {
                assert(project@.tracks[t as int].clips[i] == entries@[i]@);
                assert(project@.tracks[t as int].clips[i].channels > 0);
            }
        }
        let clips: Vec<Clip> = load_track(entries, &audio[t], plus, over);
        let ghost views = crate::track::clip_views(clips@);
        let track = Track { clips, muted: project.tracks[t].muted, gain: project.tracks[t].gain };
        assert(track@.clips =~= want[t as int].clips);
        assert(track@ == want[t as int]);
        tracks.push(track);
        t = t + 1;
        assert(crate::track::track_views(tracks@) =~= before.push(track@));
        assert(crate::track::track_views(tracks@) =~= want.subrange(0, t as int));
    }
    assert(want.subrange(0, t as int) =~= want);
    (tracks, project.rate)
}

/// Whether each file of the numbering is written from a clip whose samples have the hash that the
/// file stands for, and no two files stand for the same hash.
pub open spec fn sound(n: Numbering, tracks: Seq<TrackView>) -> bool {
    forall|h: u64| #[trigger]
        n.files.contains_key(h) ==> {
            let k = n.files[h];
            &&& k < n.firsts.len()
            &&& n.firsts[k as int].0 < tracks.len()
            &&& n.firsts[k as int].1 < tracks[n.firsts[k as int].0 as int].clips.len()
            &&& hash_of(
                tracks[n.firsts[k as int].0 as int].clips[n.firsts[k as int].1 as int].samples,
            ) == h
        }
}

/// Whether the indices of tracks and clips are in the range of an index.
pub open spec fn indexable(tracks: Seq<TrackView>) -> bool {
    &&& tracks.len() <= usize::MAX
    &&& forall|t: int| 0 <= t < tracks.len() ==> (#[trigger] tracks[t]).clips.len() <= usize::MAX
}

proof fn lemma_with_clips_sound(n: Numbering, tracks: Seq<TrackView>, t: int, len: int)
    requires
        sound(n, tracks),
        indexable(tracks),
        0 <= t < tracks.len(),
        0 <= len <= tracks[t].clips.len(),
    ensures
        sound(n.with_clips(t, tracks[t].clips.subrange(0, len)), tracks),
    decreases len,
{
    let clips = tracks[t].clips;
    if len == 0 {
        assert(clips.subrange(0, 0) =~= Seq::empty());
    } else {
        lemma_with_clips_sound(n, tracks, t, len - 1);
        let less = n.with_clips(t, clips.subrange(0, len - 1));
        let more = n.with_clips(t, clips.subrange(0, len));
        assert(clips.subrange(0, len).drop_last() =~= clips.subrange(0, len - 1));
        assert(clips.subrange(0, len).last() == clips[len - 1]);
        assert(more == less.with(t, len - 1, clips[len - 1]));
        let h0 = hash_of(clips[len - 1].samples);
        assert forall|h: u64| #[trigger] more.files.contains_key(h) implies {
            let k = more.files[h];
            &&& k < more.firsts.len()
            &&& more.firsts[k as int].0 < tracks.len()
            &&& more.firsts[k as int].1 < tracks[more.firsts[k as int].0 as int].clips.len()
            &&& hash_of(
                tracks[more.firsts[k as int].0 as int].clips[more.firsts[k as int].1 as int].samples,
            ) == h
        } by {
            if h != h0 || less.files.contains_key(h0) {
                assert(less.files.contains_key(h));
                assert(more.firsts[more.files[h] as int] == less.firsts[less.files[h] as int]);
            }
        }
    }
}

proof fn lemma_numbering_sound(tracks: Seq<TrackView>, n: int)
    requires
        indexable(tracks),
        0 <= n <= tracks.len(),
    ensures
        sound(numbering(tracks.subrange(0, n)), tracks),
        forall|t: int|
            0 <= t < n ==> numbering(tracks.subrange(0, n)).covers((#[trigger] tracks[t]).clips),
    decreases n,
{
    if n == 0 {
        assert(tracks.subrange(0, 0) =~= Seq::empty());
    } else {
        lemma_numbering_sound(tracks, n - 1);
        let upto = tracks.subrange(0, n);
        assert(upto.drop_last() =~= tracks.subrange(0, n - 1));
        assert(upto.last() == tracks[n - 1]);
        let clips = tracks[n - 1].clips;
        let less = numbering(tracks.subrange(0, n - 1));
        lemma_with_clips_sound(less, tracks, n - 1, clips.len() as int);
        assert(clips.subrange(0, clips.len() as int) =~= clips);
        lemma_with_clips_grows(less, n - 1, clips);
        assert forall|t: int| 0 <= t < n implies numbering(upto).covers((#[trigger] tracks[t]).clips) by {
            if t < n - 1 {
                lemma_entries_stay(less, numbering(upto), tracks[t].clips, Seq::empty());
            }
        }
    }
}

/// Every clip's file is written, from a clip whose samples have the same hash.
pub proof fn law_every_file_is_written(tracks: Seq<TrackView>, t: int, i: int)
    requires
        indexable(tracks),
        0 <= t < tracks.len(),
        0 <= i < tracks[t].clips.len(),
    ensures
        ({
            let n = numbering(tracks);
            let h = hash_of(tracks[t].clips[i].samples);
            let (u, j) = n.firsts[n.files[h] as int];
            &&& n.files[h] < n.firsts.len()
            &&& u < tracks.len()
            &&& j < tracks[u as int].clips.len()
            &&& hash_of(tracks[u as int].clips[j as int].samples) == h
        }),
{
    lemma_numbering_sound(tracks, tracks.len() as int);
    assert(tracks.subrange(0, tracks.len() as int) =~= tracks);
    let n = numbering(tracks);
    assert(n.covers(tracks[t].clips));
    assert(n.files.contains_key(hash_of(tracks[t].clips[i].samples)));
}

/// Clips with identical samples share one WAV file.
pub proof fn law_identical_samples_share_a_file(n: Numbering, c: ClipView, d: ClipView, dir: Seq<char>)
    requires
        c.samples == d.samples,
    ensures
        n.entry(c, dir).file == n.entry(d, dir).file,
{
}

/// WAV files with different numbers have different paths.
pub proof fn law_paths_differ(dir: Seq<char>, m: nat, n: nat)
    requires
        wav_path(dir, m) == wav_path(dir, n),
    ensures
        m == n,
{
    let a = crate::text::decimal(m);
    let b = crate::text::decimal(n);
    let head = dir + "/"@;
    let tail = ".wav"@;
    let p = wav_path(dir, m);
    assert(p.len() == head.len() + a.len() + tail.len());
    assert(wav_path(dir, n).len() == head.len() + b.len() + tail.len());
    assert(a =~= p.subrange(head.len() as int, (head.len() + a.len()) as int));
    assert(b =~= wav_path(dir, n).subrange(head.len() as int, (head.len() + b.len()) as int));
    crate::text::law_decimal_reads_back(m);
    crate::text::law_decimal_reads_back(n);
}

/// The samples that are in the file of clip `i` of track `t` once the project is saved: those of
/// the clip that the file was written from.
pub open spec fn stored_samples(tracks: Seq<TrackView>, t: int, i: int) -> Seq<Sample> {
    let n = numbering(tracks);
    let (u, j) = n.firsts[n.files[hash_of(tracks[t].clips[i].samples)] as int];
    tracks[u as int].clips[j as int].samples
}

/// Whether different samples of the project have different hashes.
pub open spec fn no_collisions(tracks: Seq<TrackView>) -> bool {
    forall|t: int, i: int, u: int, j: int|
        0 <= t < tracks.len() && 0 <= i < tracks[t].clips.len() && 0 <= u < tracks.len() && 0 <= j
            < tracks[u].clips.len() && hash_of((#[trigger] tracks[t].clips[i]).samples) == hash_of(
            (#[trigger] tracks[u].clips[j]).samples,
        ) ==> tracks[t].clips[i].samples == tracks[u].clips[j].samples
}

/// What is loaded is what was saved: a project that was saved, and whose files are read back as
/// they were written, has the same rate, and the same tracks and clips, with the same samples,
/// gains and mute switches, in the same places. The mono mixdown is made anew, which gives the same
/// where it was made from the samples.
pub proof fn law_load_gives_back_what_was_saved<
    A: Fn(Sample, Sample) -> Sample,
    D: Fn(Sample, u32) -> Sample,
>(
    tracks: Seq<TrackView>,
    rate: u32,
    audio: Seq<Seq<Seq<Sample>>>,
    dir: Seq<char>,
    plus: A,
    over: D,
)
    requires
        indexable(tracks),
        crate::track::tracks_ok(tracks),
        no_collisions(tracks),
        audio.len() == tracks.len(),
        forall|t: int| 0 <= t < tracks.len() ==> (#[trigger] audio[t]).len() == tracks[t].clips.len(),
        forall|t: int, i: int|
            0 <= t < tracks.len() && 0 <= i < tracks[t].clips.len() ==> (#[trigger] audio[t][i])
                == stored_samples(tracks, t, i),
    ensures
        loadable(saved_project(tracks, rate, dir).tracks, audio),
        saved_project(tracks, rate, dir).rate == rate,
        ({
            let loaded = loaded_tracks(saved_project(tracks, rate, dir).tracks, audio, plus, over);
            &&& loaded.len() == tracks.len()
            &&& forall|t: int|
                0 <= t < tracks.len() ==> (#[trigger] loaded[t]).switches() == tracks[t].switches()
                    && loaded[t].clips.len() == tracks[t].clips.len()
            &&& forall|t: int, i: int|
                0 <= t < tracks.len() && 0 <= i < tracks[t].clips.len() ==> {
                    let mono = crate::audio::mono_of(
                        tracks[t].clips[i].samples,
                        tracks[t].clips[i].channels,
                        plus,
                        over,
                    );
                    (#[trigger] loaded[t].clips[i]) == (ClipView {
                        mono,
                        summary: crate::audio::summary_of(mono),
                        ..tracks[t].clips[i]
                    })
                }
        }),
{
    let entries = saved_project(tracks, rate, dir).tracks;
    let loaded = loaded_tracks(entries, audio, plus, over);
    let n = numbering(tracks);
    assert forall|t: int| 0 <= t < entries.len() implies (#[trigger] entries[t]).clips.len()
        == audio[t].len() by {
        assert(audio[t].len() == tracks[t].clips.len());
    }
    assert forall|t: int, i: int| 0 <= t < entries.len() && 0 <= i < entries[t].clips.len() implies (
    #[trigger] entries[t].clips[i]).channels > 0 by {
        assert(crate::track::clips_ok(tracks[t].clips));
        assert(tracks[t].clips[i].ok());
        assert(entries[t].clips[i] == n.entry(tracks[t].clips[i], dir));
    }
    assert forall|t: int, i: int| 0 <= t < tracks.len() && 0 <= i < tracks[t].clips.len() implies {
        let mono = crate::audio::mono_of(
            tracks[t].clips[i].samples,
            tracks[t].clips[i].channels,
            plus,
            over,
        );
        (#[trigger] loaded[t].clips[i]) == (ClipView {
            mono,
            summary: crate::audio::summary_of(mono),
            ..tracks[t].clips[i]
        })
    } by {
        law_every_file_is_written(tracks, t, i);
        let c = tracks[t].clips[i];
        let (u, j) = n.firsts[n.files[hash_of(c.samples)] as int];
        assert(tracks[u as int].clips[j as int].samples == c.samples);
        assert(audio[t][i] == c.samples);
        assert(entries[t].clips[i] == n.entry(c, dir));
        assert(loaded[t].clips[i] == loaded_clip(entries[t].clips[i], audio[t][i], plus, over));
    }
}

/// No samples are written twice: no two WAV files are written from clips whose samples have one hash.
pub proof fn law_no_samples_are_written_twice(tracks: Seq<TrackView>, j: int, k: int)
    requires
        indexable(tracks),
        0 <= j < k < numbering(tracks).firsts.len(),
    ensures
        ({
            let (t, a) = numbering(tracks).firsts[j];
            let (u, b) = numbering(tracks).firsts[k];
            &&& t < tracks.len() && a < tracks[t as int].clips.len()
            &&& u < tracks.len() && b < tracks[u as int].clips.len()
            &&& hash_of(tracks[t as int].clips[a as int].samples) != hash_of(
                tracks[u as int].clips[b as int].samples,
            )
        }),
{
    lemma_each_once(tracks);
    assert(written_once(numbering(tracks), tracks));
}

/// Whether each file of a numbering is the file of the hash of the clip that it is written from.
pub open spec fn written_once(n: Numbering, tracks: Seq<TrackView>) -> bool {
    forall|k: int|
        0 <= k < n.firsts.len() ==> {
            let (t, i) = #[trigger] n.firsts[k];
            let h = hash_of(tracks[t as int].clips[i as int].samples);
            &&& t < tracks.len()
            &&& i < tracks[t as int].clips.len()
            &&& n.files.contains_key(h)
            &&& n.files[h] == k
        }
}

proof fn lemma_each_once(tracks: Seq<TrackView>)
    requires
        indexable(tracks),
    ensures
        written_once(numbering(tracks), tracks),
        forall|h: u64| #[trigger]
            numbering(tracks).files.contains_key(h) ==> numbering(tracks).files[h] < numbering(
                tracks,
            ).firsts.len(),
    decreases tracks.len(),
{
    if tracks.len() > 0 {
        let d = tracks.drop_last();
        let n = tracks.len() - 1;
        assert forall|t: int| 0 <= t < d.len() implies (#[trigger] d[t]).clips.len() <= usize::MAX by {
            assert(d[t] == tracks[t]);
        }
        lemma_each_once(d);
        let before = numbering(d);
        assert(written_once(before, tracks)) by {
            assert forall|k: int| 0 <= k < before.firsts.len() implies {
                let (t, i) = #[trigger] before.firsts[k];
                let h = hash_of(tracks[t as int].clips[i as int].samples);
                &&& t < tracks.len()
                &&& i < tracks[t as int].clips.len()
                &&& before.files.contains_key(h)
                &&& before.files[h] == k
            } by {
                let (t, i) = before.firsts[k];
                assert(d[t as int] == tracks[t as int]);
            }
        }
        lemma_each_clip_once(before, tracks, n, tracks[n].clips.len() as int);
        assert(tracks[n].clips.subrange(0, tracks[n].clips.len() as int) =~= tracks[n].clips);
    }
}

proof fn lemma_each_clip_once(before: Numbering, tracks: Seq<TrackView>, t: int, m: int)
    requires
        indexable(tracks),
        0 <= t < tracks.len(),
        0 <= m <= tracks[t].clips.len(),
        written_once(before, tracks),
        forall|h: u64| #[trigger]
            before.files.contains_key(h) ==> before.files[h] < before.firsts.len(),
    ensures
        ({
            let n = before.with_clips(t, tracks[t].clips.subrange(0, m));
            &&& written_once(n, tracks)
            &&& forall|h: u64| #[trigger] n.files.contains_key(h) ==> n.files[h] < n.firsts.len()
        }),
    decreases m,
{
    let some = tracks[t].clips.subrange(0, m);
    if m > 0 {
        let less = tracks[t].clips.subrange(0, m - 1);
        assert(some.drop_last() =~= less);
        assert(some.last() == tracks[t].clips[m - 1]);
        lemma_each_clip_once(before, tracks, t, m - 1);
        let p = before.with_clips(t, less);
        let n = before.with_clips(t, some);
        let c = tracks[t].clips[m - 1];
        let h = hash_of(c.samples);
        assert(n == p.with(t, m - 1, c));
        if !p.files.contains_key(h) {
            assert forall|k: int| 0 <= k < n.firsts.len() implies {
                let (u, i) = #[trigger] n.firsts[k];
                let g = hash_of(tracks[u as int].clips[i as int].samples);
                &&& u < tracks.len()
                &&& i < tracks[u as int].clips.len()
                &&& n.files.contains_key(g)
                &&& n.files[g] == k
            } by {
                if k < p.firsts.len() {
                    assert(n.firsts[k] == p.firsts[k]);
                } else {
                    assert(n.firsts[k] == ((t as usize), ((m - 1) as usize)));
                }
            }
        }
    }
}

/// The bytes of some samples tell the samples: different samples have different bytes, so that each bit
/// of each sample goes into the hash.
pub proof fn law_bytes_tell_the_samples(a: Seq<Sample>, b: Seq<Sample>)
    requires
        sample_bytes(a) == sample_bytes(b),
    ensures
        a == b,
{
    assert(sample_bytes(a).len() == 4 * a.len());
    assert(sample_bytes(b).len() == 4 * b.len());
    assert forall|i: int| 0 <= i < a.len() implies a[i] == b[i] by {
        let x = bits_of(a[i]);
        let y = bits_of(b[i]);
        assert((4 * i) / 4 == i && (4 * i + 1) / 4 == i && (4 * i + 2) / 4 == i && (4 * i + 3) / 4 == i);
        assert(sample_bytes(a)[4 * i] == bytes_of(x)[0] && sample_bytes(b)[4 * i] == bytes_of(y)[0]);
        assert(sample_bytes(a)[4 * i + 1] == bytes_of(x)[1] && sample_bytes(b)[4 * i + 1] == bytes_of(
            y,
        )[1]);
        assert(sample_bytes(a)[4 * i + 2] == bytes_of(x)[2] && sample_bytes(b)[4 * i + 2] == bytes_of(
            y,
        )[2]);
        assert(sample_bytes(a)[4 * i + 3] == bytes_of(x)[3] && sample_bytes(b)[4 * i + 3] == bytes_of(
            y,
        )[3]);
        assert(x == y);
    }
    assert(a =~= b);
}

} // verus!

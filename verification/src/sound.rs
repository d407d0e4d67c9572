//! The sound registry and event dispatch.
//!
//! The registry maps a logical sound name to the host's audio handle, loaded
//! once at startup and append-only afterwards.  Dispatch is event-driven: a
//! sound effect spawns a fire-and-forget playback; music playback keeps at
//! most one looping track, tagged `now_playing`, alive at a time.  Unknown
//! sound names are reported and otherwise ignored.

use vstd::prelude::*;
use crate::names::{trim_extension, trim_extension_spec};
use crate::table::{assoc_get, lemma_assoc_get_absent, lemma_assoc_get_first_match,
    lemma_assoc_get_push, lemma_assoc_get_update};

verus! {

/// Table from logical sound name to the host's audio handle.
#[derive(Debug)]
pub struct SoundResource {
    entries: Vec<(String, u64)>,
}

impl SoundResource {
    /// The registry as an association sequence of `(name, handle)` pairs.
    pub closed spec fn pairs(&self) -> Seq<(Seq<char>, u64)> {
        self.entries@.map_values(|p: (String, u64)| (p.0@, p.1))
    }

    /// The audio handle registered under a name, if any.
    pub open spec fn spec_get(&self, k: Seq<char>) -> Option<u64> {
        assoc_get(self.pairs(), k)
    }

    /// An empty registry: no name is mapped.
    pub fn new() -> (r: Self)
        ensures
            forall|k: Seq<char>| r.spec_get(k) is None,
            r.pairs().len() == 0,
    {
        let r = SoundResource { entries: Vec::new() };
        proof {
            assert(r.pairs() =~= Seq::<(Seq<char>, u64)>::empty());
        }
        r
    }

    /// Insert a new audio handle: stores the mapping, overwriting any earlier
    /// handle registered under the same name.
    pub fn insert(&mut self, name: String, handle: u64)
        ensures
            forall|k: Seq<char>| final(self).spec_get(k) == if k == name@ {
                Some(handle)
            } else {
                old(self).spec_get(k)
            },
    {
        let n = self.entries.len();
        let mut i: usize = 0;
        while i < n
            invariant
                i <= n,
                self == old(self),
                n == self.entries.len(),
                forall|j: int| 0 <= j < i ==> self.pairs()[j].0 != name@,
            decreases n - i,
        {
            if self.entries[i].0 == name {
                assert(self.pairs()[i as int].0 == name@);
                self.entries[i] = (name, handle);
                proof {
                    assert(self.pairs() =~= old(self).pairs().update(
                        i as int,
                        (old(self).pairs()[i as int].0, handle),
                    ));
                    assert forall|k: Seq<char>|
                        self.spec_get(k) == if k == old(self).pairs()[i as int].0 {
                            Some(handle)
                        } else {
                            old(self).spec_get(k)
                        } by {
                        lemma_assoc_get_update(old(self).pairs(), i as int, handle, k);
                    }
                }
                return;
            }
            i = i + 1;
        }
        self.entries.push((name, handle));
        proof {
            assert(self.pairs() =~= old(self).pairs().push((name@, handle)));
            assert forall|k: Seq<char>|
                self.spec_get(k) == if k == name@ {
                    Some(handle)
                } else {
                    old(self).spec_get(k)
                } by {
                lemma_assoc_get_push(old(self).pairs(), (name@, handle), k);
            }
        }
    }

    /// Get an audio handle: a pure lookup that never mutates and never
    /// panics on a miss.
    pub fn get(&self, name: &str) -> (r: Option<u64>)
        ensures
            r == self.spec_get(name@),
    {
        let key: String = name.to_owned();
        let n = self.entries.len();
        let mut i: usize = 0;
        while i < n
            invariant
                i <= n,
                n == self.entries.len(),
                key@ == name@,
                forall|j: int| 0 <= j < i ==> self.pairs()[j].0 != name@,
            decreases n - i,
        {
            if self.entries[i].0 == key {
                assert(self.pairs()[i as int].0 == name@);
                proof {
                    lemma_assoc_get_first_match(self.pairs(), i as int);
                }
                return Some(self.entries[i].1);
            }
            i = i + 1;
        }
        proof {
            lemma_assoc_get_absent(self.pairs(), name@);
        }
        None
    }
}

/// The handle the registry maps `k` to after loading: the handle of the last
/// file whose trimmed name is `k`.
pub open spec fn loaded_sound_spec(names: Seq<Seq<char>>, handles: Seq<u64>, k: Seq<char>) -> Option<
    u64,
>
    decreases names.len(),
{
    if names.len() == 0 {
        None
    } else if trim_extension_spec(names.last()) == k {
        Some(handles[names.len() - 1])
    } else {
        loaded_sound_spec(names.drop_last(), handles, k)
    }
}

/// The file names of a sound configuration, as models.
pub open spec fn sound_names_view(c: Seq<String>) -> Seq<Seq<char>> {
    c.map_values(|s: String| s@)
}

/// Builds the sound registry from the configured file names and the audio
/// handles the host loaded for them, one per file in the same order.  Each
/// handle is registered under its file name with the extension stripped.
pub fn load_sounds(config: &Vec<String>, handles: &Vec<u64>) -> (r: SoundResource)
    requires
        handles@.len() == config@.len(),
    ensures
        forall|k: Seq<char>| r.spec_get(k) == loaded_sound_spec(
            sound_names_view(config@),
            handles@,
            k,
        ),
{
    let ghost names = sound_names_view(config@);
    let mut sounds = SoundResource::new();
    let n = config.len();
    proof {
        assert(names.take(0) =~= Seq::<Seq<char>>::empty());
    }
    let mut i: usize = 0;
    while i < n
        invariant
            i <= n,
            n == config@.len(),
            handles@.len() == config@.len(),
            names == sound_names_view(config@),
            forall|k: Seq<char>| sounds.spec_get(k) == loaded_sound_spec(
                names.take(i as int),
                handles@,
                k,
            ),
        decreases n - i,
    {
        let name = trim_extension(config[i].as_str());
        sounds.insert(name, handles[i]);
        proof {
            assert(names.take(i + 1).drop_last() =~= names.take(i as int));
            assert(names.take(i + 1).last() == names[i as int]);
            assert forall|k: Seq<char>| sounds.spec_get(k) == loaded_sound_spec(
                names.take(i + 1),
                handles@,
                k,
            ) by {
                assert(loaded_sound_spec(names.take(i + 1), handles@, k) == if trim_extension_spec(
                    names[i as int],
                ) == k {
                    Some(handles@[i as int])
                } else {
                    loaded_sound_spec(names.take(i as int), handles@, k)
                });
            }
        }
        i = i + 1;
    }
    proof {
        assert(names.take(n as int) =~= names);
    }
    sounds
}

/// Event: play a one-shot sound effect by name.
pub struct PlaySFX {
    pub name: String,
}

/// Event: start the named looping music track, replacing the current one.
pub struct PlayMusic {
    pub name: String,
}

/// Event: stop the current looping music track without starting another.
pub struct StopMusic {}

/// One playback entity spawned by dispatch: the audio handle it plays, its
/// mode, and whether it is the `now_playing`-tagged looping music track.
#[derive(Debug, Clone, Copy, PartialEq, Eq, Structural)]
pub struct Playback {
    pub id: u64,
    pub source: u64,
    pub looping: bool,
    pub now_playing: bool,
}

/// How many playback entities carry the `now_playing` tag.
pub open spec fn now_playing_count(s: Seq<Playback>) -> int
    decreases s.len(),
{
    if s.len() == 0 {
        0int
    } else {
        now_playing_count(s.drop_last()) + if s.last().now_playing {
            1int
        } else {
            0int
        }
    }
}

/// The playback entities that survive stopping the music: everything not
/// tagged `now_playing`, in order.
pub open spec fn without_now_playing(s: Seq<Playback>) -> Seq<Playback>
    decreases s.len(),
{
    if s.len() == 0 {
        Seq::empty()
    } else {
        let pre = without_now_playing(s.drop_last());
        if s.last().now_playing {
            pre
        } else {
            pre.push(s.last())
        }
    }
}

/// Law: after stopping, nothing carries the `now_playing` tag.
pub proof fn lemma_without_now_playing_count(s: Seq<Playback>)
    ensures
        now_playing_count(without_now_playing(s)) == 0,
    decreases s.len(),
{
    if s.len() > 0 {
        lemma_without_now_playing_count(s.drop_last());
        let pre = without_now_playing(s.drop_last());
        if !s.last().now_playing {
            assert(pre.push(s.last()).drop_last() =~= pre);
        }
    }
}

/// Counting one more playback.
pub proof fn lemma_now_playing_count_push(s: Seq<Playback>, p: Playback)
    ensures
        now_playing_count(s.push(p)) == now_playing_count(s) + if p.now_playing {
            1int
        } else {
            0int
        },
{
    assert(s.push(p).drop_last() =~= s);
}

/// Removes every playback entity tagged `now_playing` from the store,
/// keeping all others in order.
fn despawn_now_playing(audio: &mut Vec<Playback>)
    ensures
        final(audio)@ == without_now_playing(old(audio)@),
{
    let ghost av = old(audio)@;
    let mut out: Vec<Playback> = Vec::new();
    let n = audio.len();
    proof {
        assert(av.take(0) =~= Seq::<Playback>::empty());
        assert(without_now_playing(av.take(0)) =~= Seq::<Playback>::empty());
    }
    let mut i: usize = 0;
    while i < n
        invariant
            i <= n,
            n == audio@.len(),
            audio@ == av,
            out@ == without_now_playing(av.take(i as int)),
        decreases n - i,
    {
        let p = audio[i];
        if !p.now_playing {
            out.push(p);
        }
        proof {
            assert(av.take(i + 1).drop_last() =~= av.take(i as int));
            assert(av.take(i + 1).last() == av[i as int]);
        }
        i = i + 1;
    }
    proof {
        assert(av.take(n as int) =~= av);
    }
    *audio = out;
}

/// Sound-effect dispatch: looks the event's name up and, on a hit, spawns a
/// fire-and-forget playback entity under the given fresh identifier.  On a
/// miss nothing changes; the result reports whether the name was found, so
/// the host can log the warning.
pub fn play_sfx(audio: &mut Vec<Playback>, sounds: &SoundResource, event: &PlaySFX, fresh_id: u64) -> (found:
    bool)
    ensures
        match sounds.spec_get(event.name@) {
            Some(h) => found && final(audio)@ == old(audio)@.push(
                Playback { id: fresh_id, source: h, looping: false, now_playing: false },
            ),
            None => !found && final(audio)@ == old(audio)@,
        },
{
    match sounds.get(event.name.as_str()) {
        Some(handle) => {
            audio.push(Playback { id: fresh_id, source: handle, looping: false, now_playing: false });
            true
        },
        None => false,
    }
}

/// Music dispatch: if the event's name is known, stops every playing looping
/// track and then starts the named track as the one `now_playing`-tagged
/// looping playback under the given fresh identifier — exactly one playback
/// carries the tag afterwards.  An unknown name leaves the store untouched,
/// so the current track keeps playing; the result reports whether the name
/// was found, so the host can log the warning.
pub fn play_music(audio: &mut Vec<Playback>, sounds: &SoundResource, event: &PlayMusic, fresh_id: u64) -> (found:
    bool)
    ensures
        match sounds.spec_get(event.name@) {
            Some(h) => found && final(audio)@ == without_now_playing(old(audio)@).push(
                Playback { id: fresh_id, source: h, looping: true, now_playing: true },
            ),
            None => !found && final(audio)@ == old(audio)@,
        },
        sounds.spec_get(event.name@) is Some ==> now_playing_count(final(audio)@) == 1,
{
    match sounds.get(event.name.as_str()) {
        Some(handle) => {
            despawn_now_playing(audio);
            proof {
                lemma_without_now_playing_count(old(audio)@);
            }
            let track = Playback { id: fresh_id, source: handle, looping: true, now_playing: true };
            proof {
                lemma_now_playing_count_push(audio@, track);
            }
            audio.push(track);
            true
        },
        None => false,
    }
}

/// Stop-music dispatch: removes the `now_playing`-tagged looping track, if
/// any, without starting another.  Nothing carries the tag afterwards.
pub fn stop_music(audio: &mut Vec<Playback>)
    ensures
        final(audio)@ == without_now_playing(old(audio)@),
        now_playing_count(final(audio)@) == 0,
{
    despawn_now_playing(audio);
    proof {
        lemma_without_now_playing_count(old(audio)@);
    }
}

} // verus!

//! What becomes of the sounds that the audio thread is given.
//!
//! A sound must not be freed on the audio thread, so none may get lost there. Each is held by the
//! mixer until it is given back to the game thread.

#[allow(unused_imports)]
use std::sync::Arc;

#[allow(unused_imports)]
use vstd::multiset::Multiset;
use vstd::prelude::*;

#[allow(unused_imports)]
use crate::command::{Command, ScheduledSe};
#[allow(unused_imports)]
use crate::math::SampleMath;
#[allow(unused_imports)]
use crate::mixer;
#[allow(unused_imports)]
use crate::mixer::Mixer;
#[allow(unused_imports)]
use crate::music::MusicFrameSource;
#[allow(unused_imports)]
use crate::ring;
#[allow(unused_imports)]
use crate::schedule;
#[allow(unused_imports)]
use crate::sound::SoundData;
#[allow(unused_imports)]
use crate::voice;
#[allow(unused_imports)]
use crate::voice::SoundRequest;

verus! {

/// The sounds of the entries of a schedule.
pub open spec fn scheduled_sounds(entries: Seq<(u64, ScheduledSe)>) -> Seq<Arc<SoundData>> {
    entries.map_values(|e: (u64, ScheduledSe)| e.1.sound)
}

/// The sounds that come with a command.
pub open spec fn sounds_in(command: Command) -> Seq<Arc<SoundData>> {
    match command {
        Command::PlaySe { sound, .. } => seq![sound],
        Command::SeSchedule { entry, .. } => seq![entry.sound],
        _ => Seq::empty(),
    }
}

/// The sounds that a mixer holds: those of its voices and those on its schedule.
pub open spec fn held<S: MusicFrameSource>(mixer: Mixer<S>) -> Multiset<Arc<SoundData>> {
    mixer.voices@.sounds().add(scheduled_sounds(mixer.se_schedule.entries@).to_multiset())
}

/// The sounds that a mixer gives back in the course of a command.
pub open spec fn handed_back<S: MusicFrameSource>(mixer: Mixer<S>, command: Command) -> Seq<
    Arc<SoundData>,
> {
    let entries = mixer.se_schedule.entries@;
    match command {
        Command::PlaySe { sound, .. } => mixer.voices@.refused(sound),
        Command::StopVoice { voice_serial } => mixer::sounds_of(
            entries,
            |se: ScheduledSe| se.voice_serial == voice_serial,
        ),
        Command::StopVoicesUsingSound { sound_id } => mixer::sounds_of(
            entries,
            |se: ScheduledSe| se.sound_id == sound_id,
        ),
        Command::SeSchedule { entry, .. } => if entries.len() < mixer.se_schedule.capacity {
            Seq::empty()
        } else {
            seq![entry.sound]
        },
        _ => Seq::empty(),
    }
}

proof fn lemma_marking_keeps_sounds(
    entries: Seq<(u64, ScheduledSe)>,
    marks: Seq<bool>,
    n: nat,
)
    requires
        n <= entries.len(),
    ensures
        scheduled_sounds(schedule::unmarked(entries, marks, n)).to_multiset().add(
            schedule::marked(entries, marks, n).map_values(
                |se: ScheduledSe| se.sound,
            ).to_multiset(),
        ) == scheduled_sounds(entries.take(n as int)).to_multiset(),
    decreases n,
{
    broadcast use vstd::seq_lib::group_to_multiset_ensures;

    let sound_of = |se: ScheduledSe| se.sound;
    let left = schedule::unmarked(entries, marks, n);
    let taken = schedule::marked(entries, marks, n);
    let all = scheduled_sounds(entries.take(n as int));
    if n == 0 {
        assert(scheduled_sounds(left) =~= Seq::empty());
        assert(taken.map_values(sound_of) =~= Seq::empty());
        assert(all =~= Seq::empty());
        assert(scheduled_sounds(left).to_multiset().add(
            taken.map_values(sound_of).to_multiset(),
        ) =~= all.to_multiset());
    } else {
        let k = (n - 1) as nat;
        let sound = entries[n - 1].1.sound;
        let left_before = scheduled_sounds(schedule::unmarked(entries, marks, k));
        let taken_before = schedule::marked(entries, marks, k).map_values(sound_of);
        let all_before = scheduled_sounds(entries.take(k as int));
        lemma_marking_keeps_sounds(entries, marks, k);
        assert(all =~= all_before.push(sound));
        if marks[n - 1] {
            assert(taken.map_values(sound_of) =~= taken_before.push(sound));
            assert(scheduled_sounds(left) =~= left_before);
        } else {
            assert(taken.map_values(sound_of) =~= taken_before);
            assert(scheduled_sounds(left) =~= left_before.push(sound));
        }
        assert(scheduled_sounds(left).to_multiset().add(
            taken.map_values(sound_of).to_multiset(),
        ) =~= left_before.to_multiset().add(taken_before.to_multiset()).insert(sound));
        assert(all.to_multiset() =~= all_before.to_multiset().insert(sound));
    }
}

proof fn lemma_calling_off_keeps_sounds(
    entries: Seq<(u64, ScheduledSe)>,
    p: spec_fn(ScheduledSe) -> bool,
)
    ensures
        scheduled_sounds(mixer::entries_without(entries, p)).to_multiset().add(
            mixer::sounds_of(entries, p).to_multiset(),
        ) == scheduled_sounds(entries).to_multiset(),
{
    lemma_marking_keeps_sounds(entries, mixer::marks_of(entries, p), entries.len());
    assert(entries.take(entries.len() as int) =~= entries);
}

proof fn lemma_due_count_fits(entries: Seq<(u64, ScheduledSe)>, t: u64, n: nat)
    ensures
        schedule::due_count(entries, t, n) <= n,
    decreases n,
{
    if n > 0 {
        lemma_due_count_fits(entries, t, (n - 1) as nat);
    }
}

proof fn lemma_scheduling_keeps_sounds(
    entries: Seq<(u64, ScheduledSe)>,
    i: int,
    entry: (u64, ScheduledSe),
)
    requires
        0 <= i <= entries.len(),
    ensures
        scheduled_sounds(entries.insert(i, entry)).to_multiset() == scheduled_sounds(
            entries,
        ).to_multiset().insert(entry.1.sound),
{
    broadcast use vstd::seq_lib::group_to_multiset_ensures;

    let before = scheduled_sounds(entries);
    let after = scheduled_sounds(entries.insert(i, entry));
    let sound = entry.1.sound;
    assert(after[i] == sound);
    assert(after.remove(i) =~= before);
    assert(after.contains(sound));
    assert(after.to_multiset() =~= after.remove(i).to_multiset().insert(sound));
}

proof fn lemma_no_sounds()
    ensures
        Seq::<Arc<SoundData>>::empty().to_multiset() == Multiset::<Arc<SoundData>>::empty(),
{
    broadcast use vstd::seq_lib::group_to_multiset_ensures;

    assert(Seq::<Arc<SoundData>>::empty().to_multiset() =~= Multiset::empty());
}

proof fn lemma_few_sounds(sound: Arc<SoundData>)
    ensures
        seq![sound].to_multiset() == Multiset::<Arc<SoundData>>::empty().insert(sound),
{
    broadcast use vstd::seq_lib::group_to_multiset_ensures;

    lemma_no_sounds();
    assert(seq![sound] =~= Seq::<Arc<SoundData>>::empty().push(sound));
}

proof fn lemma_held_on_either_side<A>(
    voices: (Multiset<A>, Multiset<A>),
    scheduled: (Multiset<A>, Multiset<A>),
    given: Multiset<A>,
    brought: Multiset<A>,
)
    requires
        ({
            ||| voices.1.add(given) == voices.0.add(brought) && scheduled.1 == scheduled.0
            ||| scheduled.1.add(given) == scheduled.0.add(brought) && voices.1 == voices.0
        }),
    ensures
        voices.1.add(scheduled.1).add(given) == voices.0.add(scheduled.0).add(brought),
{
    let x = voices.1.add(scheduled.1).add(given);
    let y = voices.0.add(scheduled.0).add(brought);
    assert forall|a: A| x.count(a) == y.count(a) by {
        if voices.1.add(given) == voices.0.add(brought) && scheduled.1 == scheduled.0 {
            assert(voices.1.add(given).count(a) == voices.0.add(brought).count(a));
        } else {
            assert(scheduled.1.add(given).count(a) == scheduled.0.add(brought).count(a));
        }
    }
    assert(x =~= y);
}

/// No command makes a sound disappear on the audio thread: the sounds that the mixer held and those
/// that came with the command are held after it or given back.
pub proof fn law_commands_lose_no_sound<S: MusicFrameSource, M: SampleMath>(
    before: Mixer<S>,
    m: &M,
    command: Command,
    after: Mixer<S>,
)
    requires
        before.wf(),
        before.applied(m, command, after),
    ensures
        mixer::given_back(
            before.reclaim.producer,
            after.reclaim.producer,
            handed_back(before, command),
        ),
        held(after).add(handed_back(before, command).to_multiset()) == held(before).add(
            sounds_in(command).to_multiset(),
        ),
{
    let ramp = before.default_ramp(m);
    let entries = before.se_schedule.entries@;
    let pool = before.voices@;
    let given = handed_back(before, command).to_multiset();
    let brought = sounds_in(command).to_multiset();
    let voices = (pool.sounds(), after.voices@.sounds());
    let scheduled = (
        scheduled_sounds(entries).to_multiset(),
        scheduled_sounds(after.se_schedule.entries@).to_multiset(),
    );
    mixer::lemma_nothing_given_back(before.reclaim.producer);
    match command {
        Command::PlaySe { voice_serial, sound_id, sound, bus, volume } => {
            let request = SoundRequest { serial: voice_serial, sound_id, sound, bus, volume };
            lemma_few_sounds(sound);
            voice::law_playing_loses_no_sound(pool, m, request, ramp);
            assert(voices.1.add(given) =~= voices.0.add(brought));
        },
        Command::StopVoice { voice_serial } => {
            voice::law_fading_keeps_the_sounds(pool, m, voice_serial, 0, ramp);
            lemma_calling_off_keeps_sounds(
                entries,
                |se: ScheduledSe| se.voice_serial == voice_serial,
            );
            lemma_no_sounds();
            assert(scheduled.1.add(given) =~= scheduled.0.add(brought));
        },
        Command::StopVoicesUsingSound { sound_id } => {
            voice::law_fading_keeps_the_sounds(pool, m, sound_id, 0, ramp);
            lemma_calling_off_keeps_sounds(entries, |se: ScheduledSe| se.sound_id == sound_id);
            lemma_no_sounds();
            assert(scheduled.1.add(given) =~= scheduled.0.add(brought));
        },
        Command::SetVoiceVolume { voice_serial, volume } => {
            voice::law_fading_keeps_the_sounds(pool, m, voice_serial, volume, ramp);
        },
        Command::SeSchedule { host_time_ns, entry } => {
            lemma_few_sounds(entry.sound);
            lemma_no_sounds();
            let i = schedule::due_count(entries, host_time_ns, entries.len()) as int;
            lemma_due_count_fits(entries, host_time_ns, entries.len());
            lemma_scheduling_keeps_sounds(entries, i, (host_time_ns, entry));
            assert(scheduled.1.add(given) =~= scheduled.0.add(brought));
        },
        _ => {},
    }
    lemma_held_on_either_side(voices, scheduled, given, brought);
}

/// As long as there is room, every sound that is given back arrives, in its order, and nothing else
/// does.
pub proof fn law_nothing_is_leaked_while_there_is_room(
    before: rtrb::Producer<Arc<SoundData>>,
    after: rtrb::Producer<Arc<SoundData>>,
    sounds: Seq<Arc<SoundData>>,
    i: int,
)
    requires
        mixer::given_back(before, after, sounds),
        sounds.len() <= ring::sound_room(before),
        0 <= i < sounds.len(),
    ensures
        ring::sound_line_in(after) == ring::sound_line_in(before),
        ring::sounds_put(after) == ring::sounds_put(before) + sounds.len(),
        ring::sound_line_in(after)[ring::sounds_put(before) + i] == sounds[i],
{
    let sent = choose|sent: Seq<bool>| mixer::given_back_as(before, after, sounds, sent);
    lemma_all_sent(sounds, sent, sounds.len());
    let arrived = mixer::sent_of(sounds, sent, sent.len());
    assert(arrived =~= sounds);
    assert(arrived[i] == ring::sound_line_in(after)[ring::sounds_put(before) + i]);
}

proof fn lemma_all_sent(sounds: Seq<Arc<SoundData>>, sent: Seq<bool>, n: nat)
    requires
        n <= sounds.len(),
        forall|i: int| 0 <= i < n ==> #[trigger] sent[i],
    ensures
        mixer::sent_of(sounds, sent, n) == sounds.take(n as int),
    decreases n,
{
    if n > 0 {
        lemma_all_sent(sounds, sent, (n - 1) as nat);
        assert(sent[n - 1]);
        assert(sounds.take(n - 1).push(sounds[n - 1]) =~= sounds.take(n as int));
    } else {
        assert(mixer::sent_of(sounds, sent, 0) =~= sounds.take(0));
    }
}

} // verus!

//! The record encoder and container writer: serialises a [`Workout`] into the
//! binary container — a 14-byte checksum-protected header, one record per
//! logical entity, and a trailing checksum over the whole record payload.

use vstd::prelude::*;
use vstd::utf8::encode_utf8;

use crate::crc;
use crate::crc::crc_of;
use crate::{Workout, WorkoutStep};

verus! {

/// The two bytes of `v`, least-significant first.
pub open spec fn le16(v: u16) -> Seq<u8> {
    seq![(v & 0xFF) as u8, ((v >> 8) & 0xFF) as u8]
}

/// The four bytes of `v`, least-significant first.
pub open spec fn le32(v: u32) -> Seq<u8> {
    seq![
        (v & 0xFF) as u8,
        ((v >> 8) & 0xFF) as u8,
        ((v >> 16) & 0xFF) as u8,
        ((v >> 24) & 0xFF) as u8,
    ]
}

/// The wire bytes of a step name or workout title: the UTF-8 encoding of its
/// characters.
pub open spec fn text_bytes(s: Seq<char>) -> Seq<u8> {
    encode_utf8(s)
}

/// The file-identity record: its record-kind discriminant byte, then the
/// fixed tag — the ASCII bytes of `FILEID`.
pub open spec fn file_id_record() -> Seq<u8> {
    seq![0x00u8, 0x46u8, 0x49u8, 0x4Cu8, 0x45u8, 0x49u8, 0x44u8]
}

/// The workout-summary record: its discriminant byte, then the raw title
/// bytes with no length prefix and no terminator.
pub open spec fn summary_record(title: Seq<u8>) -> Seq<u8> {
    seq![0x01u8] + title
}

/// The workout-step record: its discriminant byte, the duration (four bytes,
/// little-endian), the low and high target bounds (two little-endian bytes
/// each), a one-byte name length, then the raw name bytes.
pub open spec fn step_record(step: WorkoutStep) -> Seq<u8> {
    seq![0x02u8] + le32(step.duration_secs) + le16(step.target_power_low) + le16(
        step.target_power_high,
    ) + seq![text_bytes(step.name@).len() as u8] + text_bytes(step.name@)
}

/// Whether a step's name fits the one-byte length field of its record.
pub open spec fn step_fits(step: WorkoutStep) -> bool {
    text_bytes(step.name@).len() <= 255
}

/// The step records of a workout, concatenated in playback order.
pub open spec fn steps_records(steps: Seq<WorkoutStep>) -> Seq<u8>
    decreases steps.len(),
{
    if steps.len() == 0 {
        Seq::empty()
    } else {
        step_record(steps.first()) + steps_records(steps.drop_first())
    }
}

/// The complete record payload of a workout: the file-identity record, the
/// workout-summary record, then one step record per step, in order.
pub open spec fn payload_bytes(w: Workout) -> Seq<u8> {
    file_id_record() + summary_record(text_bytes(w.title@)) + steps_records(w.steps@)
}

/// The first twelve header bytes: size-of-header (14), protocol version
/// (0x10), profile version (100, little-endian), the payload length
/// (little-endian), and the ASCII format tag `.FIT`.
pub open spec fn header_prefix(payload_len: u32) -> Seq<u8> {
    seq![14u8, 0x10u8] + le16(100) + le32(payload_len) + seq![0x2Eu8, 0x46u8, 0x49u8, 0x54u8]
}

/// The full 14-byte header: the twelve fixed bytes followed by their
/// checksum, little-endian, seeded from zero.
pub open spec fn header_bytes(payload_len: u32) -> Seq<u8> {
    header_prefix(payload_len) + le16(crc_of(header_prefix(payload_len)))
}

/// Whether a workout can be framed at all: every step name fits its one-byte
/// length field and the payload length fits the 32-bit header field.
pub open spec fn workout_fits(w: Workout) -> bool {
    &&& forall|i: int| 0 <= i < w.steps@.len() ==> step_fits(#[trigger] w.steps@[i])
    &&& payload_bytes(w).len() <= u32::MAX
}

/// The byte-exact emitted file: header, payload, then the payload checksum,
/// little-endian, seeded from zero independently of the header checksum.
pub open spec fn file_bytes(w: Workout) -> Seq<u8> {
    header_bytes(payload_bytes(w).len() as u32) + payload_bytes(w) + le16(
        crc_of(payload_bytes(w)),
    )
}

/// Why a write was refused. `FieldOverflow`: a value does not fit its
/// fixed-width wire field — a step name longer than 255 bytes, or a payload
/// longer than the 32-bit length field can hold.
#[derive(Clone, Copy, Debug, PartialEq, Eq, Structural)]
pub enum FitError {
    FieldOverflow,
}

/// Relies on byteorder's `LittleEndian::write_u16`, which stores the two
/// bytes of `v` into a 2-byte buffer least-significant first (it writes
/// `v.to_le_bytes()`); the buffer is then appended whole.
#[verifier::external_body]
fn push_u16_le(buf: &mut Vec<u8>, v: u16)
    ensures
        final(buf)@ == old(buf)@ + le16(v),
{
    let mut bytes: [u8; 2] = [0u8; 2];
    <byteorder::LittleEndian as byteorder::ByteOrder>::write_u16(&mut bytes, v);
    buf.extend_from_slice(&bytes);
}

/// Relies on byteorder's `LittleEndian::write_u32`, which stores the four
/// bytes of `v` into a 4-byte buffer least-significant first (it writes
/// `v.to_le_bytes()`); the buffer is then appended whole.
#[verifier::external_body]
fn push_u32_le(buf: &mut Vec<u8>, v: u32)
    ensures
        final(buf)@ == old(buf)@ + le32(v),
{
    let mut bytes: [u8; 4] = [0u8; 4];
    <byteorder::LittleEndian as byteorder::ByteOrder>::write_u32(&mut bytes, v);
    buf.extend_from_slice(&bytes);
}

/// Assembles one workout file. `sink` holds every byte emitted so far;
/// `buffer` accumulates the record payload of the write in progress.
pub struct FitWriter {
    pub sink: Vec<u8>,
    pub buffer: Vec<u8>,
}

impl FitWriter {
    /// A writer that has emitted nothing yet.
    pub fn new() -> (w: FitWriter)
        ensures
            w.sink@.len() == 0,
            w.buffer@.len() == 0,
    {
        FitWriter { sink: Vec::new(), buffer: Vec::new() }
    }

    fn write_file_id_message(&mut self)
        ensures
            final(self).sink == old(self).sink,
            final(self).buffer@ == old(self).buffer@ + file_id_record(),
    {
        self.buffer.push(0x00);  // record-kind discriminant
        // the ASCII bytes of "FILEID"
        self.buffer.push(0x46);
        self.buffer.push(0x49);
        self.buffer.push(0x4C);
        self.buffer.push(0x45);
        self.buffer.push(0x49);
        self.buffer.push(0x44);
        proof {
            assert(self.buffer@ =~= old(self).buffer@ + file_id_record());
        }
    }

    fn write_workout_message(&mut self, workout: &Workout)
        ensures
            final(self).sink == old(self).sink,
            final(self).buffer@ == old(self).buffer@ + summary_record(text_bytes(workout.title@)),
    {
        self.buffer.push(0x01);  // record-kind discriminant
        self.buffer.extend_from_slice(workout.title.as_str().as_bytes());
        proof {
            assert(self.buffer@ =~= old(self).buffer@ + summary_record(
                text_bytes(workout.title@),
            ));
        }
    }

    fn write_workout_step_message(&mut self, step: &WorkoutStep) -> (r: Result<(), FitError>)
        ensures
            final(self).sink == old(self).sink,
            step_fits(*step) ==> r is Ok && final(self).buffer@ == old(self).buffer@ + step_record(
                *step,
            ),
            !step_fits(*step) ==> r == Err::<(), FitError>(FitError::FieldOverflow)
                && final(self).buffer == old(self).buffer,
    {
        let name_len: usize = step.name.as_str().as_bytes().len();
        if name_len > 255 {
            return Err(FitError::FieldOverflow);
        }
        self.buffer.push(0x02);  // record-kind discriminant
        push_u32_le(&mut self.buffer, step.duration_secs);
        push_u16_le(&mut self.buffer, step.target_power_low);
        push_u16_le(&mut self.buffer, step.target_power_high);
        self.buffer.push(name_len as u8);
        self.buffer.extend_from_slice(step.name.as_str().as_bytes());
        proof {
            assert(self.buffer@ =~= old(self).buffer@ + step_record(*step));
        }
        Ok(())
    }

    fn finalize(&mut self) -> (r: Result<(), FitError>)
        ensures
            final(self).buffer == old(self).buffer,
            old(self).buffer@.len() <= u32::MAX ==> r is Ok && final(self).sink@
                == old(self).sink@ + header_bytes(old(self).buffer@.len() as u32)
                + old(self).buffer@ + le16(crc_of(old(self).buffer@)),
            old(self).buffer@.len() > u32::MAX ==> r == Err::<(), FitError>(
                FitError::FieldOverflow,
            ) && final(self).sink == old(self).sink,
    {
        if self.buffer.len() > (u32::MAX as usize) {
            return Err(FitError::FieldOverflow);
        }
        let data_size: u32 = self.buffer.len() as u32;

        let mut header: Vec<u8> = Vec::new();
        header.push(14);  // header size
        header.push(0x10);  // protocol version
        push_u16_le(&mut header, 100);  // profile version
        push_u32_le(&mut header, data_size);
        // the ASCII bytes of ".FIT"
        header.push(0x2E);
        header.push(0x46);
        header.push(0x49);
        header.push(0x54);
        proof {
            assert(header@ =~= header_prefix(data_size));
        }
        let crc_header: u16 = crc::crc16(header.as_slice());
        push_u16_le(&mut header, crc_header);

        self.sink.append(&mut header);
        self.sink.extend_from_slice(self.buffer.as_slice());
        let crc_data: u16 = crc::crc16(self.buffer.as_slice());
        push_u16_le(&mut self.sink, crc_data);
        proof {
            assert(self.sink@ =~= old(self).sink@ + header_bytes(old(self).buffer@.len() as u32)
                + old(self).buffer@ + le16(crc_of(old(self).buffer@)));
        }
        Ok(())
    }

    /// Emits the complete file for `workout` to the sink: header, one record
    /// per logical entity, then the trailing payload checksum. Succeeds
    /// exactly when every field fits its wire width; a workout with no steps
    /// is deliberately accepted and framed as its two fixed records. On
    /// failure nothing is emitted: the sink is left untouched.
    pub fn write_workout(&mut self, workout: &Workout) -> (r: Result<(), FitError>)
        ensures
            r is Ok <==> workout_fits(*workout),
            r is Ok ==> final(self).sink@ == old(self).sink@ + file_bytes(*workout),
            r is Err ==> r == Err::<(), FitError>(FitError::FieldOverflow) && final(self).sink
                == old(self).sink,
    {
        self.buffer.clear();
        self.write_file_id_message();
        self.write_workout_message(workout);
        for i in 0..workout.steps.len()
            invariant
                self.sink == old(self).sink,
                self.buffer@ == file_id_record() + summary_record(text_bytes(workout.title@))
                    + steps_records(workout.steps@.take(i as int)),
                forall|j: int| 0 <= j < i ==> step_fits(#[trigger] workout.steps@[j]),
        {
            match self.write_workout_step_message(&workout.steps[i]) {
                Ok(()) => {},
                Err(e) => {
                    proof {
                        assert(!step_fits(workout.steps@[i as int]));
                    }
                    return Err(e);
                },
            }
            proof {
                lemma_steps_records_take_one_more(workout.steps@, i as int);
                assert(self.buffer@ =~= file_id_record() + summary_record(
                    text_bytes(workout.title@),
                ) + steps_records(workout.steps@.take(i + 1)));
            }
        }
        proof {
            assert(workout.steps@.take(workout.steps@.len() as int) =~= workout.steps@);
            assert(self.buffer@ =~= payload_bytes(*workout));
        }
        let r = self.finalize();
        proof {
            if payload_bytes(*workout).len() <= u32::MAX {
                assert(self.sink@ =~= old(self).sink@ + file_bytes(*workout));
            }
        }
        r
    }
}

/// How many step records a byte sequence begins with: a count of the
/// well-formed records — discriminant byte, nine further fixed bytes whose
/// last is the name length, then that many name bytes — that tile it from the
/// front.
pub open spec fn count_step_records(p: Seq<u8>) -> nat
    decreases p.len(),
{
    if p.len() >= 10 && p[0] == 0x02 && 10 + p[9] <= p.len() {
        1 + count_step_records(p.skip(10 + p[9] as int))
    } else {
        0
    }
}

/// The emitted file of an accepted workout is self-consistent at the header:
/// the two bytes at offsets 12 and 13 hold, little-endian, the checksum of
/// bytes [0, 12), recomputable by any reader.
pub proof fn lemma_header_self_consistent(w: Workout)
    requires
        workout_fits(w),
    ensures
        ({
            let f = file_bytes(w);
            f.subrange(12, 14) == le16(crc_of(f.subrange(0, 12)))
        }),
{
    let f = file_bytes(w);
    let prefix = header_prefix(payload_bytes(w).len() as u32);
    assert(f.subrange(0, 12) =~= prefix);
    assert(f.subrange(12, 14) =~= le16(crc_of(prefix)));
}

/// The emitted file of an accepted workout is self-consistent at the tail:
/// its final two bytes hold, little-endian, the checksum of the payload
/// region, bytes [14, 14 + payload_length).
pub proof fn lemma_payload_self_consistent(w: Workout)
    requires
        workout_fits(w),
    ensures
        ({
            let f = file_bytes(w);
            let n = payload_bytes(w).len() as int;
            &&& f.subrange(14, 14 + n) == payload_bytes(w)
            &&& f.subrange(14 + n, 16 + n) == le16(crc_of(f.subrange(14, 14 + n)))
        }),
{
    let f = file_bytes(w);
    let n = payload_bytes(w).len() as int;
    assert(f.subrange(14, 14 + n) =~= payload_bytes(w));
    assert(f.subrange(14 + n, 16 + n) =~= le16(crc_of(payload_bytes(w))));
}

/// The payload length stored in the header, bytes [4, 8) little-endian, is
/// exactly the number of payload bytes emitted, and the whole file is sixteen
/// bytes — header plus trailing checksum — longer than the payload.
pub proof fn lemma_length_accounting(w: Workout)
    requires
        workout_fits(w),
    ensures
        ({
            let f = file_bytes(w);
            let n = payload_bytes(w).len();
            &&& f.len() == 16 + n
            &&& f.subrange(4, 8) == le32(n as u32)
        }),
{
    let f = file_bytes(w);
    let n = payload_bytes(w).len();
    assert(f.subrange(4, 8) =~= le32(n as u32));
}

/// A workout with N steps is emitted as exactly N + 2 records: the payload
/// opens with the file-identity discriminant, the workout-summary
/// discriminant follows it, and re-walking the remainder by the records'
/// declared widths counts one step record per step.
pub proof fn lemma_record_count(w: Workout)
    requires
        forall|i: int| 0 <= i < w.steps@.len() ==> step_fits(#[trigger] w.steps@[i]),
    ensures
        ({
            let p = payload_bytes(w);
            let title_len = text_bytes(w.title@).len() as int;
            &&& p.len() == 8 + title_len + steps_records(w.steps@).len()
            &&& p[0] == 0x00
            &&& p[7] == 0x01
            &&& count_step_records(p.skip(8 + title_len)) == w.steps@.len()
        }),
{
    let p = payload_bytes(w);
    let title_len = text_bytes(w.title@).len() as int;
    assert(p.skip(8 + title_len) =~= steps_records(w.steps@));
    lemma_count_steps_records(w.steps@);
}

/// Re-walking the concatenated step records of fitting steps counts exactly
/// one record per step.
proof fn lemma_count_steps_records(steps: Seq<WorkoutStep>)
    requires
        forall|i: int| 0 <= i < steps.len() ==> step_fits(#[trigger] steps[i]),
    ensures
        count_step_records(steps_records(steps)) == steps.len(),
    decreases steps.len(),
{
    if steps.len() > 0 {
        let first = steps.first();
        let head = step_record(first);
        let rest = steps_records(steps.drop_first());
        let p = steps_records(steps);
        let name_len = text_bytes(first.name@).len() as int;
        assert(head.len() == 10 + name_len);
        assert(p == head + rest);
        assert(p[0] == 0x02);
        assert(p[9] == name_len as u8);
        assert(p[9] as int == name_len);
        assert(p.skip(10 + name_len) =~= rest);
        lemma_count_steps_records(steps.drop_first());
    }
}

/// Taking one more step into the encoded prefix appends exactly that step's
/// record.
proof fn lemma_steps_records_take_one_more(steps: Seq<WorkoutStep>, n: int)
    requires
        0 <= n < steps.len(),
    ensures
        steps_records(steps.take(n + 1)) == steps_records(steps.take(n)) + step_record(steps[n]),
{
    assert(steps.take(n + 1) =~= steps.take(n).push(steps[n]));
    lemma_steps_records_push(steps.take(n), steps[n]);
}

/// Appending a step to a sequence appends its record to the encoding.
proof fn lemma_steps_records_push(steps: Seq<WorkoutStep>, step: WorkoutStep)
    ensures
        steps_records(steps.push(step)) == steps_records(steps) + step_record(step),
    decreases steps.len(),
{
    let snoc = steps.push(step);
    assert(snoc.len() == steps.len() + 1);
    assert(steps_records(snoc) == step_record(snoc.first()) + steps_records(snoc.drop_first()));
    if steps.len() == 0 {
        assert(snoc.drop_first() =~= Seq::<WorkoutStep>::empty());
        assert(snoc.first() == step);
        assert(steps_records(snoc.drop_first()) == Seq::<u8>::empty());
        assert(steps_records(steps) == Seq::<u8>::empty());
        assert(step_record(step) + Seq::<u8>::empty() =~= Seq::<u8>::empty() + step_record(step));
    } else {
        assert(snoc.drop_first() =~= steps.drop_first().push(step));
        assert(snoc.first() == steps.first());
        lemma_steps_records_push(steps.drop_first(), step);
        assert(steps_records(steps) == step_record(steps.first()) + steps_records(
            steps.drop_first(),
        ));
        assert(step_record(steps.first()) + (steps_records(steps.drop_first()) + step_record(step))
            =~= (step_record(steps.first()) + steps_records(steps.drop_first())) + step_record(
            step,
        ));
    }
}

} // verus!

//! Frames: the typed pieces that a record's plaintext is made of.
use crate::wire::{
    append, be_bytes, be_bytes_length, be_limit, be_round_trip, be_value, be_value_round_trip,
    get_u16, numbers_are_big_endian, numbers_are_written_big_endian, put_u16,
};
use crate::error::Error;
use vstd::prelude::*;
use vstd::slice::slice_subrange;
use vstd::slice::slice_to_vec;

verus! {

/// Which of the two streams of a session a record belongs to.
#[derive(Clone, Copy, Debug, PartialEq, Eq, Structural)]
pub enum RecordKind {
    Data,
    Control,
}

/// A frame as values.
#[verifier::ext_equal]
pub struct FrameModel {
    pub frame_type: u8,
    pub flags: u8,
    pub body: Seq<u8>,
}

impl FrameModel {
    /// The frame on the wire: type, flags, length of the body, body.
    pub open spec fn encoded(self) -> Seq<u8> {
        seq![self.frame_type, self.flags] + be_bytes(self.body.len(), 2) + self.body
    }

    /// A frame whose length has room in the header.
    pub open spec fn fits(self) -> bool {
        self.body.len() <= 0xffff
    }

    /// A frame that the receiver neither knows nor may skip.
    pub open spec fn critical(self, kind: RecordKind) -> bool {
        !frame_known(self.frame_type, kind) && self.frame_type >= 0x80
    }
}

/// The frame types that each kind of record defines.
pub open spec fn frame_known(frame_type: u8, kind: RecordKind) -> bool {
    match kind {
        RecordKind::Data => frame_type <= 0x06,
        RecordKind::Control => 0x01 <= frame_type <= 0x13,
    }
}

/// The known frames of a plaintext, in order. An unknown frame is skipped, unless
/// its type is critical.
pub open spec fn frames_of(plaintext: Seq<u8>, kind: RecordKind) -> Result<
    Seq<FrameModel>,
    Error,
>
    decreases plaintext.len(),
{
    if plaintext.len() == 0 {
        Ok(Seq::empty())
    } else if plaintext.len() < 4 {
        Err(Error::TruncatedFrameHeader)
    } else {
        let end = 4 + be_value(plaintext.subrange(2, 4));
        if plaintext.len() < end {
            Err(Error::TruncatedFrameBody)
        } else {
            let frame = FrameModel {
                frame_type: plaintext[0],
                flags: plaintext[1],
                body: plaintext.subrange(4, end as int),
            };
            if frame.critical(kind) {
                Err(Error::UnsupportedCriticalFrame)
            } else {
                let found = if frame_known(frame.frame_type, kind) {
                    seq![frame]
                } else {
                    Seq::empty()
                };
                followed_by(found, frames_of(plaintext.skip(end as int), kind))
            }
        }
    }
}

/// Frames found earlier in front of what the rest of a plaintext gives.
pub open spec fn followed_by(found: Seq<FrameModel>, rest: Result<Seq<FrameModel>, Error>) -> Result<
    Seq<FrameModel>,
    Error,
> {
    match rest {
        Ok(frames) => Ok(found + frames),
        Err(error) => Err(error),
    }
}

/// Frames on the wire, one after the other.
pub open spec fn all_encoded(frames: Seq<FrameModel>) -> Seq<u8>
    decreases frames.len(),
{
    if frames.len() == 0 {
        Seq::empty()
    } else {
        frames[0].encoded() + all_encoded(frames.skip(1))
    }
}

/// The frames of a list that the receiver knows, in order.
pub open spec fn known_frames(frames: Seq<FrameModel>, kind: RecordKind) -> Seq<FrameModel>
    decreases frames.len(),
{
    if frames.len() == 0 {
        Seq::empty()
    } else if frame_known(frames[0].frame_type, kind) {
        seq![frames[0]] + known_frames(frames.skip(1), kind)
    } else {
        known_frames(frames.skip(1), kind)
    }
}

/// How the parser takes one encoded frame off the front of a plaintext.
proof fn lemma_first_frame(frame: FrameModel, rest: Seq<u8>, kind: RecordKind)
    requires
        frame.fits(),
    ensures
        frames_of(frame.encoded() + rest, kind) == if frame.critical(kind) {
            Err::<Seq<FrameModel>, Error>(Error::UnsupportedCriticalFrame)
        } else {
            followed_by(known_frames(seq![frame], kind), frames_of(rest, kind))
        },
{
    let plaintext = frame.encoded() + rest;
    be_bytes_length(frame.body.len(), 2);
    reveal_with_fuel(be_limit, 3);
    be_round_trip(frame.body.len(), 2);
    assert(plaintext.subrange(2, 4) =~= be_bytes(frame.body.len(), 2));
    let end = 4 + frame.body.len();
    assert(plaintext.subrange(4, end as int) =~= frame.body);
    assert(plaintext.skip(end as int) =~= rest);
    assert(seq![frame].skip(1) =~= Seq::empty());
    reveal_with_fuel(known_frames, 2);
    assert(known_frames(seq![frame], kind) =~= if frame_known(frame.frame_type, kind) {
        seq![frame]
    } else {
        Seq::empty()
    });
}

/// Parsing undoes encoding: of a list of frames without an unknown critical one,
/// exactly the known frames come back, in order and unchanged. Unknown optional
/// frames are skipped.
pub proof fn parsing_undoes_encoding(frames: Seq<FrameModel>, kind: RecordKind)
    requires
        forall|i: int| 0 <= i < frames.len() ==> (#[trigger] frames[i]).fits(),
        forall|i: int| 0 <= i < frames.len() ==> !(#[trigger] frames[i]).critical(kind),
    ensures
        frames_of(all_encoded(frames), kind) == Ok::<Seq<FrameModel>, Error>(
            known_frames(frames, kind),
        ),
    decreases frames.len(),
{
    if frames.len() > 0 {
        let rest = frames.skip(1);
        parsing_undoes_encoding(rest, kind);
        lemma_first_frame(frames[0], all_encoded(rest), kind);
        reveal_with_fuel(known_frames, 2);
        assert(seq![frames[0]].skip(1) =~= Seq::empty());
        assert(known_frames(seq![frames[0]], kind) + known_frames(rest, kind) =~= known_frames(
            frames,
            kind,
        ));
    }
}

/// Every frame that is parsed has an encoding.
pub proof fn parsed_frames_fit(plaintext: Seq<u8>, kind: RecordKind)
    requires
        frames_of(plaintext, kind) is Ok,
    ensures
        forall|i: int|
            0 <= i < frames_of(plaintext, kind)->Ok_0.len() ==> (#[trigger] frames_of(
                plaintext,
                kind,
            )->Ok_0[i]).fits(),
    decreases plaintext.len(),
{
    if plaintext.len() > 0 {
        let end = 4 + be_value(plaintext.subrange(2, 4));
        be_value_round_trip(plaintext.subrange(2, 4));
        reveal_with_fuel(be_limit, 3);
        parsed_frames_fit(plaintext.skip(end as int), kind);
    }
}

/// Where all frames are known, all of them come back.
pub proof fn known_frames_come_back(frames: Seq<FrameModel>, kind: RecordKind)
    requires
        forall|i: int|
            0 <= i < frames.len() ==> frame_known((#[trigger] frames[i]).frame_type, kind),
    ensures
        known_frames(frames, kind) == frames,
    decreases frames.len(),
{
    if frames.len() > 0 {
        known_frames_come_back(frames.skip(1), kind);
        assert(seq![frames[0]] + frames.skip(1) =~= frames);
    }
}

/// One unknown critical frame has the whole plaintext refused, wherever it stands.
pub proof fn critical_frame_is_refused(frames: Seq<FrameModel>, position: int, kind: RecordKind)
    requires
        forall|i: int| 0 <= i < frames.len() ==> (#[trigger] frames[i]).fits(),
        0 <= position < frames.len(),
        frames[position].critical(kind),
    ensures
        frames_of(all_encoded(frames), kind) == Err::<Seq<FrameModel>, Error>(
            Error::UnsupportedCriticalFrame,
        ),
    decreases frames.len(),
{
    lemma_first_frame(frames[0], all_encoded(frames.skip(1)), kind);
    if position > 0 {
        critical_frame_is_refused(frames.skip(1), position - 1, kind);
    }
}

/// A plaintext that ends inside a frame is refused.
pub proof fn truncated_frame_is_refused(
    frames: Seq<FrameModel>,
    last: FrameModel,
    cut: int,
    kind: RecordKind,
)
    requires
        forall|i: int| 0 <= i < frames.len() ==> (#[trigger] frames[i]).fits(),
        last.fits(),
        0 < cut < last.encoded().len(),
    ensures
        frames_of(all_encoded(frames) + last.encoded().take(cut), kind) is Err,
    decreases frames.len(),
{
    let tail = last.encoded().take(cut);
    if frames.len() == 0 {
        assert(all_encoded(frames) + tail =~= tail);
        be_bytes_length(last.body.len(), 2);
        reveal_with_fuel(be_limit, 3);
        be_round_trip(last.body.len(), 2);
        if cut >= 4 {
            assert(tail.subrange(2, 4) =~= be_bytes(last.body.len(), 2));
        }
    } else {
        let rest = all_encoded(frames.skip(1)) + tail;
        assert(all_encoded(frames) + tail =~= frames[0].encoded() + rest);
        truncated_frame_is_refused(frames.skip(1), last, cut, kind);
        lemma_first_frame(frames[0], rest, kind);
    }
}

/// One frame of a record's plaintext.
#[derive(Clone, Debug, PartialEq, Eq)]
pub struct Frame {
    pub frame_type: u8,
    pub flags: u8,
    pub body: Vec<u8>,
}

impl View for Frame {
    type V = FrameModel;

    open spec fn view(&self) -> FrameModel {
        FrameModel { frame_type: self.frame_type, flags: self.flags, body: self.body@ }
    }
}

/// Frames as values.
pub open spec fn frame_views(frames: Seq<Frame>) -> Seq<FrameModel> {
    Seq::new(frames.len(), |i: int| frames[i]@)
}

impl Frame {
    /// Writes the frame; a body of more than 65535 bytes has no encoding.
    pub fn encode(&self) -> (encoded: Result<Vec<u8>, Error>)
        ensures
            encoded is Ok <==> self@.fits(),
            encoded is Ok ==> encoded->Ok_0@ == self@.encoded(),
            encoded is Err ==> encoded->Err_0 == Error::FrameBodyTooLarge,
    {
        if self.body.len() > 0xffff {
            return Err(Error::FrameBodyTooLarge);
        }
        let mut output: Vec<u8> = Vec::new();
        output.push(self.frame_type);
        output.push(self.flags);
        put_u16(&mut output, self.body.len() as u16);
        append(&mut output, &self.body);
        assert(output@ =~= self@.encoded());
        Ok(output)
    }
}

/// Whether the record kind defines this frame type.
fn is_known(frame_type: u8, kind: RecordKind) -> (known: bool)
    ensures
        known == frame_known(frame_type, kind),
{
    match kind {
        RecordKind::Data => frame_type <= 0x06,
        RecordKind::Control => 0x01 <= frame_type && frame_type <= 0x13,
    }
}

/// Reads the frames of a plaintext.
pub fn parse_frames(plaintext: &[u8], kind: RecordKind) -> (frames: Result<Vec<Frame>, Error>)
    ensures
        match frames {
            Ok(list) => frames_of(plaintext@, kind) == Ok::<Seq<FrameModel>, Error>(
                frame_views(list@),
            ) && forall|i: int| 0 <= i < list@.len() ==> (#[trigger] list@[i])@.fits(),
            Err(error) => frames_of(plaintext@, kind) == Err::<Seq<FrameModel>, Error>(error),
        },
{
    let mut frames: Vec<Frame> = Vec::new();
    let mut offset: usize = 0;
    assert(plaintext@.skip(0) =~= plaintext@);
    assert(followed_by(frame_views(frames@), frames_of(plaintext@, kind)) == frames_of(
        plaintext@,
        kind,
    )) by {
        if let Ok(rest) = frames_of(plaintext@, kind) {
            assert(frame_views(frames@) + rest =~= rest);
        }
    }
    while offset < plaintext.len()
        invariant
            offset <= plaintext@.len(),
            frames_of(plaintext@, kind) == followed_by(
                frame_views(frames@),
                frames_of(plaintext@.skip(offset as int), kind),
            ),
        decreases plaintext@.len() - offset,
    {
        let ghost remaining = plaintext@.skip(offset as int);
        if plaintext.len() - offset < 4 {
            return Err(Error::TruncatedFrameHeader);
        }
        let frame_type: u8 = plaintext[offset];
        let flags: u8 = plaintext[offset + 1];
        let frame_len: usize = get_u16(plaintext, offset + 2) as usize;
        assert(remaining.subrange(2, 4) =~= plaintext@.subrange(offset + 2, offset + 4));
        offset = offset + 4;
        if plaintext.len() - offset < frame_len {
            return Err(Error::TruncatedFrameBody);
        }
        let body = slice_subrange(plaintext, offset, offset + frame_len);
        offset = offset + frame_len;
        assert(remaining.subrange(4, 4 + frame_len) =~= body@);
        assert(remaining.skip(4 + frame_len) =~= plaintext@.skip(offset as int));
        let known = is_known(frame_type, kind);
        if !known && frame_type >= 0x80 {
            return Err(Error::UnsupportedCriticalFrame);
        }
        let ghost rest = frames_of(plaintext@.skip(offset as int), kind);
        let ghost earlier = frame_views(frames@);
        if known {
            frames.push(Frame { frame_type, flags, body: slice_to_vec(body) });
            proof {
                let frame = FrameModel { frame_type, flags, body: body@ };
                assert(frame_views(frames@) =~= earlier.push(frame));
                if let Ok(list) = rest {
                    assert(earlier.push(frame) + list =~= earlier + (seq![frame] + list));
                }
            }
        } else {
            proof {
                if let Ok(list) = rest {
                    assert(Seq::<FrameModel>::empty() + list =~= list);
                }
            }
        }
    }
    proof {
        assert(plaintext@.skip(offset as int) =~= Seq::empty());
        assert(frame_views(frames@) + Seq::empty() =~= frame_views(frames@));
        parsed_frames_fit(plaintext@, kind);
        assert forall|i: int| 0 <= i < frames@.len() implies (#[trigger] frames@[i])@.fits() by {
            assert(frame_views(frames@)[i].fits());
        }
    }
    Ok(frames)
}

/// A frame is read from its bytes: its type, its flags, the length of its body and the body.
/// A data record may hold types 0 to 6, a control record 1 to 19. Of the others, those below
/// 128 are passed over, and one from 128 on has the record refused. The rest of the plaintext
/// is read in the same way.
pub proof fn frames_are_read_from_their_bytes(
    frame_type: u8,
    flags: u8,
    body: Seq<u8>,
    rest: Seq<u8>,
    kind: RecordKind,
)
    requires
        body.len() <= 0xffff,
    ensures
        ({
            let plaintext = seq![
                frame_type,
                flags,
                (body.len() / 256) as u8,
                (body.len() % 256) as u8,
            ] + body + rest;
            let known = match kind {
                RecordKind::Data => frame_type <= 6,
                RecordKind::Control => 1 <= frame_type <= 19,
            };
            let frame = FrameModel { frame_type, flags, body };
            let later = frames_of(rest, kind);
            &&& !known && frame_type >= 128 ==> frames_of(plaintext, kind) == Err::<
                Seq<FrameModel>,
                Error,
            >(Error::UnsupportedCriticalFrame)
            &&& (known || frame_type < 128) && later is Err ==> frames_of(plaintext, kind) == later
            &&& known && later is Ok ==> frames_of(plaintext, kind) == Ok::<
                Seq<FrameModel>,
                Error,
            >(seq![frame] + later->Ok_0)
            &&& !known && frame_type < 128 && later is Ok ==> frames_of(plaintext, kind) == later
            &&& frames_of(Seq::empty(), kind) == Ok::<Seq<FrameModel>, Error>(Seq::empty())
        }),
{
    let plaintext = seq![frame_type, flags, (body.len() / 256) as u8, (body.len() % 256) as u8]
        + body + rest;
    numbers_are_big_endian(plaintext.subrange(2, 4));
    assert(be_value(plaintext.subrange(2, 4)) == body.len());
    let end = 4 + body.len() as int;
    assert(plaintext.subrange(4, end) =~= body);
    assert(plaintext.skip(end) =~= rest);
    if frames_of(rest, kind) is Ok {
        assert(Seq::<FrameModel>::empty() + frames_of(rest, kind)->Ok_0 =~= frames_of(
            rest,
            kind,
        )->Ok_0);
    }
}

/// A frame is written as it is read: its type, its flags, the length of its body and the
/// body.
pub proof fn frames_are_written_as_bytes(frame: FrameModel)
    requires
        frame.body.len() <= 0xffff,
    ensures
        frame.fits(),
        frame.encoded() == seq![
            frame.frame_type,
            frame.flags,
            (frame.body.len() / 256) as u8,
            (frame.body.len() % 256) as u8,
        ] + frame.body,
{
    numbers_are_written_big_endian(frame.body.len());
    assert(frame.body.len() / 256 % 256 == frame.body.len() / 256);
    assert(frame.encoded() =~= seq![
        frame.frame_type,
        frame.flags,
        (frame.body.len() / 256) as u8,
        (frame.body.len() % 256) as u8,
    ] + frame.body);
}

} // verus!

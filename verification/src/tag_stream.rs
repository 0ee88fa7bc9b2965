//! The decoded tag stream: typed tag records, each with the byte offsets it
//! spans in the shared movie data, and a cursor that reads them in order.

use crate::prelude::{CharacterId, Color, ColorTransform, Depth, Matrix, Rectangle, SwfSlice};
use vstd::prelude::*;

verus! {

/// A shape definition: the character it defines, its bounds, and where its
/// outline lies in the movie data.
#[derive(Clone, Copy, Debug, PartialEq, Eq)]
pub struct Shape {
    pub id: CharacterId,
    pub shape_bounds: Rectangle,
    pub data: SwfSlice,
}

/// A sprite definition: the character it defines and the length of its
/// nested timeline.
#[derive(Clone, Copy, Debug, PartialEq, Eq)]
pub struct Sprite {
    pub id: CharacterId,
    pub num_frames: u16,
}

/// What a placement tag does at its depth.
#[derive(Clone, Copy, Debug, PartialEq, Eq)]
pub enum PlaceObjectAction {
    /// Put a new instance of the character at the depth.
    Place(CharacterId),
    /// Change the instance that is at the depth.
    Modify,
    /// Swap the instance at the depth for a new instance of the character.
    Replace(CharacterId),
}

/// A placement tag.
#[derive(Clone, Copy, Debug, PartialEq, Eq)]
pub struct PlaceObject {
    pub depth: Depth,
    pub action: PlaceObjectAction,
    pub matrix: Option<Matrix>,
    pub color_transform: Option<ColorTransform>,
}

/// The format of a streaming sound, as announced by its head tag.
#[derive(Clone, Copy, Debug, PartialEq, Eq)]
pub struct SoundStreamInfo {
    pub sample_rate: u16,
    pub is_stereo: bool,
    pub is_16_bit: bool,
    pub num_samples_per_block: u16,
    pub latency_seek: i16,
}

/// One decoded tag.
#[derive(Clone, Copy, Debug, PartialEq, Eq)]
pub enum Tag {
    SetBackgroundColor(Color),
    DefineShape(Shape),
    DefineSprite(Sprite),
    ShowFrame,
    PlaceObject(PlaceObject),
    RemoveObject { depth: Depth },
    SoundStreamHead(SoundStreamInfo),
    SoundStreamHead2(SoundStreamInfo),
    SoundStreamBlock(SwfSlice),
    /// Any tag the timeline does not act on, by its code.
    Unknown(u16),
}

/// Number of bytes between the start of a sprite tag's body and the first
/// tag of its nested timeline: the sprite's id and its frame count.
pub const SPRITE_HEADER_LEN: u64 = 4;

/// A tag together with the byte offsets it spans: the tag starts at
/// `offset`, its body starts at `body_offset`, and the next tag starts at
/// `end_offset`.
#[derive(Clone, Copy, Debug, PartialEq, Eq)]
pub struct TagRecord {
    pub offset: u64,
    pub body_offset: u64,
    pub end_offset: u64,
    pub tag: Tag,
}

impl TagRecord {
    /// The offsets are in order, the tag is not empty, and a sprite's body
    /// has room for the header of its nested timeline.
    pub open spec fn wf(self) -> bool {
        &&& self.offset < self.end_offset
        &&& self.offset <= self.body_offset <= self.end_offset
        &&& (self.tag is DefineSprite ==> self.body_offset + SPRITE_HEADER_LEN <= self.end_offset)
    }

    /// Tests `wf`.
    pub fn is_wf(&self) -> (b: bool)
        ensures
            b == self.wf(),
    {
        let ordered = self.offset < self.end_offset && self.offset <= self.body_offset
            && self.body_offset <= self.end_offset;
        let room = match self.tag {
            Tag::DefineSprite(_) => ordered && self.end_offset - self.body_offset
                >= SPRITE_HEADER_LEN,
            _ => true,
        };
        ordered && room
    }
}

/// Every record is well formed and the records stand in strictly increasing
/// order of their offsets.
pub open spec fn records_wf(records: Seq<TagRecord>) -> bool {
    &&& forall|i: int| 0 <= i < records.len() ==> (#[trigger] records[i]).wf()
    &&& forall|i: int, j: int|
        0 <= i < j < records.len() ==> (#[trigger] records[i]).offset < (#[trigger] records[j]).offset
}

/// Whether some record starts at `pos`.
pub open spec fn has_record_at(records: Seq<TagRecord>, pos: u64) -> bool {
    exists|i: int| 0 <= i < records.len() && (#[trigger] records[i]).offset == pos
}

/// The record that starts at `pos`, if there is one.
pub open spec fn record_at(records: Seq<TagRecord>, pos: u64) -> Option<TagRecord> {
    if has_record_at(records, pos) {
        Some(records[choose|i: int| 0 <= i < records.len() && (#[trigger] records[i]).offset == pos])
    } else {
        None
    }
}

/// In well-formed records, the record at index `i` is the one found at its
/// own offset.
pub proof fn lemma_record_at_index(records: Seq<TagRecord>, i: int)
    requires
        records_wf(records),
        0 <= i < records.len(),
    ensures
        record_at(records, records[i].offset) == Some(records[i]),
{
}

/// A cursor over the decoded tags of one movie. The records never change;
/// only the position moves.
pub struct TagStream {
    records: Vec<TagRecord>,
    position: u64,
}

impl TagStream {
    /// The records of the movie, in order of their offsets.
    pub closed spec fn records(&self) -> Seq<TagRecord> {
        self.records@
    }

    /// The byte offset the cursor stands at.
    pub closed spec fn spec_position(&self) -> u64 {
        self.position
    }

    /// The records are well formed.
    pub open spec fn wf(&self) -> bool {
        records_wf(self.records())
    }

    /// Makes a stream over `records` with the cursor at offset zero, or
    /// nothing if the records are not well formed.
    pub fn new(records: Vec<TagRecord>) -> (stream: Option<TagStream>)
        ensures
            stream.is_some() == records_wf(records@),
            stream.is_some() ==> {
                &&& stream.unwrap().wf()
                &&& stream.unwrap().records() == records@
                &&& stream.unwrap().spec_position() == 0
            },
    {
        if are_records_wf(&records) {
            Some(TagStream { records, position: 0 })
        } else {
            None
        }
    }

    /// Tests whether the records are well formed.
    pub fn is_wf(&self) -> (b: bool)
        ensures
            b == self.wf(),
    {
        are_records_wf(&self.records)
    }

    /// The byte offset the cursor stands at.
    #[verifier::when_used_as_spec(spec_position)]
    pub fn position(&self) -> (pos: u64)
        ensures
            pos == self.spec_position(),
    {
        self.position
    }

    /// Moves the cursor to `pos`.
    pub fn set_position(&mut self, pos: u64)
        ensures
            final(self).records() == old(self).records(),
            final(self).spec_position() == pos,
    {
        self.position = pos;
    }

    /// Reads the tag at the cursor and moves the cursor to the tag after it.
    /// Where no tag starts at the cursor, nothing is read and the cursor
    /// stays.
    pub fn read_tag(&mut self) -> (record: Option<TagRecord>)
        requires
            old(self).wf(),
        ensures
            final(self).records() == old(self).records(),
            record == record_at(old(self).records(), old(self).spec_position()),
            final(self).spec_position() == match record {
                Some(r) => r.end_offset,
                None => old(self).spec_position(),
            },
    {
        match self.find(self.position) {
            Some(r) => {
                self.position = r.end_offset;
                Some(r)
            },
            None => None,
        }
    }

    /// Looks up the tag that starts at `pos`.
    pub fn find(&self, pos: u64) -> (record: Option<TagRecord>)
        requires
            self.wf(),
        ensures
            record == record_at(self.records(), pos),
    {
        let mut lo: usize = 0;
        let mut hi: usize = self.records.len();
        while lo < hi
            invariant
                lo <= hi <= self.records.len(),
                records_wf(self.records@),
                forall|k: int| 0 <= k < lo ==> (#[trigger] self.records[k]).offset < pos,
                forall|k: int| hi <= k < self.records.len() ==> (#[trigger] self.records[k]).offset > pos,
            decreases hi - lo,
        {
            let mid = lo + (hi - lo) / 2;
            let r = self.records[mid];
            if r.offset == pos {
                return Some(r);
            } else if r.offset < pos {
                lo = mid + 1;
            } else {
                hi = mid;
            }
        }
        None
    }
}

/// Tests whether every record is well formed and the records stand in
/// strictly increasing order of their offsets.
fn are_records_wf(records: &Vec<TagRecord>) -> (b: bool)
    ensures
        b == records_wf(records@),
{
    let n = records.len();
    let mut i: usize = 0;
    while i < n
        invariant
            n == records.len(),
            i <= n,
            forall|k: int| 0 <= k < i ==> (#[trigger] records[k]).wf(),
            forall|k: int| 0 < k < i ==> (#[trigger] records[k - 1]).offset < records[k].offset,
        decreases n - i,
    {
        if !records[i].is_wf() {
            return false;
        }
        if i > 0 && records[i - 1].offset >= records[i].offset {
            assert(!(records@[i - 1].offset < records@[i as int].offset));
            return false;
        }
        i += 1;
    }
    proof {
        lemma_adjacent_sorted(records@);
    }
    true
}

/// Records that are increasing from each one to the next are increasing
/// throughout.
proof fn lemma_adjacent_sorted(records: Seq<TagRecord>)
    requires
        forall|k: int| 0 < k < records.len() ==> (#[trigger] records[k - 1]).offset < records[k].offset,
    ensures
        forall|i: int, j: int|
            0 <= i < j < records.len() ==> (#[trigger] records[i]).offset < (#[trigger] records[j]).offset,
{
    assert forall|i: int, j: int| 0 <= i < j < records.len() implies (#[trigger] records[i]).offset < (
    #[trigger] records[j]).offset by {
        lemma_sorted_between(records, i, j);
    }
}

proof fn lemma_sorted_between(records: Seq<TagRecord>, i: int, j: int)
    requires
        forall|k: int| 0 < k < records.len() ==> (#[trigger] records[k - 1]).offset < records[k].offset,
        0 <= i < j < records.len(),
    ensures
        records[i].offset < records[j].offset,
    decreases j - i,
{
    assert(records[j - 1].offset < records[j].offset);
    if i < j - 1 {
        lemma_sorted_between(records, i, j - 1);
    }
}

} // verus!

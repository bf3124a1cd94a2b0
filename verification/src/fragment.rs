//! Splitting messages into fragments that fit the payload data of a packet,
//! and putting fragments back together.
//!
//! A fragment is `FRAGMENT_SIZE` bytes: a header, then the fragment payload.
//! The header holds the message identifier, the index of the last fragment of
//! the message and the index of this fragment (both little-endian, two bytes),
//! the number of data bytes (little-endian, two bytes) and the number of
//! SURBs (one byte). The data stands at the start of the fragment payload,
//! the SURBs at its end, the first SURB last.

use crate::sphinx::{PayloadData, Surb, SURB_SIZE};
use vstd::prelude::*;
use vstd::slice::slice_subrange;

verus! {

/// Size in bytes of a message identifier.
pub const MESSAGE_ID_SIZE: usize = 32;

pub type MessageId = [u8; MESSAGE_ID_SIZE];

/// Size in bytes of a fragment: that of the payload data of a packet.
pub const FRAGMENT_SIZE: usize = 2048;

/// Size in bytes of the header of a fragment.
pub const FRAGMENT_HEADER_SIZE: usize = 39;

/// Size in bytes of the part of a fragment that holds data and SURBs.
pub const FRAGMENT_PAYLOAD_SIZE: usize = 2009;

/// Maximum number of SURBs in one fragment.
pub const MAX_SURBS_PER_FRAGMENT: usize = 8;

/// Maximum number of fragments of a message that the header can express.
pub const MAX_FRAGMENTS: usize = 65536;

/// Number of SURBs in the first fragment of a message with `num_surbs` SURBs.
pub open spec fn first_num_surbs(num_surbs: nat) -> nat {
    if num_surbs < MAX_SURBS_PER_FRAGMENT {
        num_surbs
    } else {
        MAX_SURBS_PER_FRAGMENT as nat
    }
}

/// Number of data bytes in the first fragment of a message with `data_len`
/// bytes of data and `num_surbs` SURBs: what is left beside the SURBs.
pub open spec fn first_data_size(data_len: nat, num_surbs: nat) -> nat {
    let room = (FRAGMENT_PAYLOAD_SIZE - first_num_surbs(num_surbs) * SURB_SIZE) as nat;
    if data_len < room {
        data_len
    } else {
        room
    }
}

/// Number of fragments of a message with `data_len` bytes of data and
/// `num_surbs` SURBs. Every message has at least one fragment.
pub open spec fn spec_num_fragments(data_len: nat, num_surbs: nat) -> nat
    decreases data_len + num_surbs,
{
    let s = first_num_surbs(num_surbs);
    let d = first_data_size(data_len, num_surbs);
    if data_len - d == 0 && num_surbs - s == 0 {
        1
    } else {
        1 + spec_num_fragments((data_len - d) as nat, (num_surbs - s) as nat)
    }
}

/// The data and the number of SURBs of fragment `index` of a message.
pub open spec fn spec_fragment(data: Seq<u8>, num_surbs: nat, index: nat) -> (Seq<u8>, nat)
    decreases index,
{
    let s = first_num_surbs(num_surbs);
    let d = first_data_size(data.len(), num_surbs);
    if index == 0 {
        (data.take(d as int), s)
    } else {
        spec_fragment(data.skip(d as int), (num_surbs - s) as nat, (index - 1) as nat)
    }
}

/// What a fragment holds besides its SURBs.
pub struct BlueprintView {
    pub message_id: Seq<u8>,
    pub last_index: u16,
    pub index: u16,
    pub data: Seq<u8>,
    pub num_surbs: nat,
}

impl BlueprintView {
    /// The fragment fits the fragment payload and the header.
    pub open spec fn wf(self) -> bool {
        &&& self.message_id.len() == MESSAGE_ID_SIZE
        &&& self.index <= self.last_index
        &&& self.num_surbs <= MAX_SURBS_PER_FRAGMENT
        &&& self.data.len() + self.num_surbs * SURB_SIZE <= FRAGMENT_PAYLOAD_SIZE
    }

    /// The header of the fragment.
    pub open spec fn header(self) -> Seq<u8> {
        self.message_id + le16(self.last_index) + le16(self.index) + le16(self.data.len() as u16)
            + seq![self.num_surbs as u8]
    }

    /// The bytes of a fragment after the header and the data have been
    /// written over `bytes`: the rest is left as it was.
    pub open spec fn write(self, bytes: Seq<u8>) -> Seq<u8> {
        self.header() + self.data + bytes.subrange(
            FRAGMENT_HEADER_SIZE + self.data.len(),
            FRAGMENT_SIZE as int,
        )
    }
}

/// The two bytes of `x`, low byte first.
pub open spec fn le16(x: u16) -> Seq<u8> {
    seq![(x % 256) as u8, (x / 256) as u8]
}

/// The number that the two bytes at `offset` encode, low byte first.
pub open spec fn le16_at(bytes: Seq<u8>, offset: int) -> int {
    bytes[offset] + 256 * bytes[offset + 1]
}

/// Where SURB `i` of a fragment starts: SURBs are laid out from the end.
pub open spec fn spec_surb_offset(i: int) -> int {
    FRAGMENT_SIZE - (i + 1) * SURB_SIZE
}

/// What a fragment holds.
pub struct FragmentView {
    pub message_id: Seq<u8>,
    pub last_index: u16,
    pub index: u16,
    pub data: Seq<u8>,
    pub surbs: Seq<Seq<u8>>,
}

/// The SURBs in the bytes of a fragment, in order.
pub open spec fn spec_surbs(bytes: Seq<u8>, num_surbs: nat) -> Seq<Seq<u8>> {
    Seq::new(
        num_surbs,
        |i: int| bytes.subrange(spec_surb_offset(i), spec_surb_offset(i) + SURB_SIZE),
    )
}

/// What the bytes of a fragment hold, unless they are no fragment: the index
/// is beyond the last index, or data and SURBs do not fit.
pub open spec fn spec_parse(bytes: Seq<u8>) -> Option<FragmentView> {
    let last_index = le16_at(bytes, MESSAGE_ID_SIZE as int);
    let index = le16_at(bytes, MESSAGE_ID_SIZE + 2);
    let data_size = le16_at(bytes, MESSAGE_ID_SIZE + 4);
    let num_surbs = bytes[MESSAGE_ID_SIZE + 6] as int;
    if index > last_index || num_surbs > MAX_SURBS_PER_FRAGMENT || data_size + num_surbs * SURB_SIZE
        > FRAGMENT_PAYLOAD_SIZE {
        None
    } else {
        Some(
            FragmentView {
                message_id: bytes.subrange(0, MESSAGE_ID_SIZE as int),
                last_index: last_index as u16,
                index: index as u16,
                data: bytes.subrange(
                    FRAGMENT_HEADER_SIZE as int,
                    FRAGMENT_HEADER_SIZE + data_size,
                ),
                surbs: spec_surbs(bytes, num_surbs as nat),
            },
        )
    }
}

/// A written fragment parses as what was written, with the SURBs that stand
/// in the bytes.
pub proof fn lemma_parse_written(blueprint: BlueprintView, bytes: Seq<u8>)
    requires
        blueprint.wf(),
        bytes.len() == FRAGMENT_SIZE,
    ensures
        blueprint.write(bytes).len() == FRAGMENT_SIZE,
        spec_parse(blueprint.write(bytes)) == Some(
            FragmentView {
                message_id: blueprint.message_id,
                last_index: blueprint.last_index,
                index: blueprint.index,
                data: blueprint.data,
                surbs: spec_surbs(bytes, blueprint.num_surbs),
            },
        ),
{
    let written = blueprint.write(bytes);
    let header = blueprint.header();
    assert(header.len() == FRAGMENT_HEADER_SIZE);
    assert(forall|i: int| 0 <= i < FRAGMENT_HEADER_SIZE ==> written[i] == header[i]);
    assert(written[MESSAGE_ID_SIZE as int] == header[MESSAGE_ID_SIZE as int]);
    assert(written[MESSAGE_ID_SIZE + 1] == header[MESSAGE_ID_SIZE + 1]);
    assert(written[MESSAGE_ID_SIZE + 2] == header[MESSAGE_ID_SIZE + 2]);
    assert(written[MESSAGE_ID_SIZE + 3] == header[MESSAGE_ID_SIZE + 3]);
    assert(written[MESSAGE_ID_SIZE + 4] == header[MESSAGE_ID_SIZE + 4]);
    assert(written[MESSAGE_ID_SIZE + 5] == header[MESSAGE_ID_SIZE + 5]);
    assert(written[MESSAGE_ID_SIZE + 6] == header[MESSAGE_ID_SIZE + 6]);
    assert(le16_at(written, MESSAGE_ID_SIZE as int) == blueprint.last_index);
    assert(le16_at(written, MESSAGE_ID_SIZE + 2) == blueprint.index);
    assert(le16_at(written, MESSAGE_ID_SIZE + 4) == blueprint.data.len());
    assert(written[MESSAGE_ID_SIZE + 6] == blueprint.num_surbs);
    assert(written.subrange(0, MESSAGE_ID_SIZE as int) =~= blueprint.message_id);
    assert(written.subrange(
        FRAGMENT_HEADER_SIZE as int,
        FRAGMENT_HEADER_SIZE + blueprint.data.len(),
    ) =~= blueprint.data);
    assert(spec_surbs(written, blueprint.num_surbs) =~= spec_surbs(bytes, blueprint.num_surbs)) by {
        assert forall|i: int| 0 <= i < blueprint.num_surbs implies written.subrange(
            spec_surb_offset(i),
            spec_surb_offset(i) + SURB_SIZE,
        ) =~= bytes.subrange(spec_surb_offset(i), spec_surb_offset(i) + SURB_SIZE) by {
            assert(spec_surb_offset(i) >= FRAGMENT_HEADER_SIZE + blueprint.data.len()) by (nonlinear_arith)
                requires
                    0 <= i < blueprint.num_surbs,
                    blueprint.data.len() + blueprint.num_surbs * SURB_SIZE <= FRAGMENT_PAYLOAD_SIZE,
                    spec_surb_offset(i) == FRAGMENT_SIZE - (i + 1) * SURB_SIZE,
                    FRAGMENT_PAYLOAD_SIZE == FRAGMENT_SIZE - FRAGMENT_HEADER_SIZE,
            ;
        }
    }
}

/// The place of one fragment in a message: everything but its SURBs, which
/// are built while the packet is built.
pub struct FragmentBlueprint<'a> {
    pub message_id: MessageId,
    pub last_index: u16,
    pub index: u16,
    pub data: &'a [u8],
    pub num_surbs: usize,
}

impl<'a> View for FragmentBlueprint<'a> {
    type V = BlueprintView;

    open spec fn view(&self) -> BlueprintView {
        BlueprintView {
            message_id: self.message_id@,
            last_index: self.last_index,
            index: self.index,
            data: self.data@,
            num_surbs: self.num_surbs as nat,
        }
    }
}

impl<'a> FragmentBlueprint<'a> {
    /// Writes the header and the data of the fragment into `fragment`. The
    /// bytes behind the data, where the SURBs go, are left as they are.
    pub fn write_except_surbs(&self, fragment: &mut PayloadData)
        requires
            self@.wf(),
        ensures
            final(fragment)@ == self@.write(old(fragment)@),
    {
        let ghost before = fragment@;
        let ghost header = self@.header();
        let mut i: usize = 0;
        while i < MESSAGE_ID_SIZE
            invariant
                i <= MESSAGE_ID_SIZE,
                forall|j: int| 0 <= j < i ==> fragment[j] == self.message_id[j],
                forall|j: int| i <= j < FRAGMENT_SIZE ==> fragment[j] == before[j],
            decreases MESSAGE_ID_SIZE - i,
        {
            fragment[i] = self.message_id[i];
            i += 1;
        }
        let data_size: usize = self.data.len();
        fragment[MESSAGE_ID_SIZE] = (self.last_index % 256) as u8;
        fragment[MESSAGE_ID_SIZE + 1] = (self.last_index / 256) as u8;
        fragment[MESSAGE_ID_SIZE + 2] = (self.index % 256) as u8;
        fragment[MESSAGE_ID_SIZE + 3] = (self.index / 256) as u8;
        fragment[MESSAGE_ID_SIZE + 4] = (data_size % 256) as u8;
        fragment[MESSAGE_ID_SIZE + 5] = (data_size / 256) as u8;
        fragment[MESSAGE_ID_SIZE + 6] = self.num_surbs as u8;
        assert(forall|j: int| 0 <= j < FRAGMENT_HEADER_SIZE ==> fragment[j] == header[j]);
        let mut k: usize = 0;
        while k < data_size
            invariant
                k <= data_size,
                data_size == self.data@.len(),
                data_size <= FRAGMENT_PAYLOAD_SIZE,
                forall|j: int| 0 <= j < FRAGMENT_HEADER_SIZE ==> fragment[j] == header[j],
                forall|j: int| 0 <= j < k ==> fragment[FRAGMENT_HEADER_SIZE + j] == self.data@[j],
                forall|j: int|
                    FRAGMENT_HEADER_SIZE + k <= j < FRAGMENT_SIZE ==> fragment[j] == before[j],
            decreases data_size - k,
        {
            fragment[FRAGMENT_HEADER_SIZE + k] = self.data[k];
            k += 1;
        }
        assert(fragment@ =~= self@.write(before));
    }
}

/// Returns where SURB `i` of a fragment starts.
pub fn surb_offset(i: usize) -> (r: usize)
    requires
        i < MAX_SURBS_PER_FRAGMENT,
    ensures
        r == spec_surb_offset(i as int),
        FRAGMENT_HEADER_SIZE <= r,
        r + SURB_SIZE <= FRAGMENT_SIZE,
{
    FRAGMENT_SIZE - (i + 1) * SURB_SIZE
}

/// Writes `surb` into `fragment` as its SURB `i`.
pub fn write_surb(fragment: &mut PayloadData, i: usize, surb: &Surb)
    requires
        i < MAX_SURBS_PER_FRAGMENT,
    ensures
        final(fragment)@ == old(fragment)@.subrange(0, spec_surb_offset(i as int)) + surb@ + old(
            fragment,
        )@.subrange(spec_surb_offset(i as int) + SURB_SIZE, FRAGMENT_SIZE as int),
{
    let ghost before = fragment@;
    let offset = surb_offset(i);
    let mut k: usize = 0;
    while k < SURB_SIZE
        invariant
            k <= SURB_SIZE,
            offset + SURB_SIZE <= FRAGMENT_SIZE,
            forall|j: int| 0 <= j < offset ==> fragment[j] == before[j],
            forall|j: int| 0 <= j < k ==> fragment[offset + j] == surb[j],
            forall|j: int| offset + k <= j < FRAGMENT_SIZE ==> fragment[j] == before[j],
        decreases SURB_SIZE - k,
    {
        fragment[offset + k] = surb[k];
        k += 1;
    }
    assert(fragment@ =~= before.subrange(0, offset as int) + surb@ + before.subrange(
        offset + SURB_SIZE,
        FRAGMENT_SIZE as int,
    ));
}

/// Returns the number of fragments that a message with `data_len` bytes of
/// data and `num_surbs` SURBs is split into, unless they are more than the
/// fragment header can express.
pub fn num_fragments(data_len: usize, num_surbs: usize) -> (r: Option<usize>)
    ensures
        r == if spec_num_fragments(data_len as nat, num_surbs as nat) <= MAX_FRAGMENTS {
            Some(spec_num_fragments(data_len as nat, num_surbs as nat) as usize)
        } else {
            None
        },
{
    let mut remaining_data: usize = data_len;
    let mut remaining_surbs: usize = num_surbs;
    let mut count: usize = 0;
    loop
        invariant
            count <= MAX_FRAGMENTS,
            spec_num_fragments(data_len as nat, num_surbs as nat) == count + spec_num_fragments(
                remaining_data as nat,
                remaining_surbs as nat,
            ),
        decreases remaining_data + remaining_surbs,
    {
        if count == MAX_FRAGMENTS {
            return None;
        }
        let s: usize = if remaining_surbs < MAX_SURBS_PER_FRAGMENT {
            remaining_surbs
        } else {
            MAX_SURBS_PER_FRAGMENT
        };
        let room: usize = FRAGMENT_PAYLOAD_SIZE - s * SURB_SIZE;
        let d: usize = if remaining_data < room {
            remaining_data
        } else {
            room
        };
        count += 1;
        if remaining_data - d == 0 && remaining_surbs - s == 0 {
            return Some(count);
        }
        remaining_data -= d;
        remaining_surbs -= s;
    }
}

/// Splits a message into fragments. Returns the blueprints of the fragments
/// in order, unless they are more than the fragment header can express.
pub fn fragment_blueprints<'a>(message_id: &MessageId, data: &'a [u8], num_surbs: usize) -> (r: Option<
    Vec<FragmentBlueprint<'a>>,
>)
    ensures
        match r {
            Some(blueprints) => {
                &&& blueprints@.len() == spec_num_fragments(data@.len(), num_surbs as nat)
                &&& blueprints@.len() <= MAX_FRAGMENTS
                &&& forall|i: int|
                    0 <= i < blueprints@.len() ==> (#[trigger] blueprints@[i])@ == (BlueprintView {
                        message_id: message_id@,
                        last_index: (blueprints@.len() - 1) as u16,
                        index: i as u16,
                        data: spec_fragment(data@, num_surbs as nat, i as nat).0,
                        num_surbs: spec_fragment(data@, num_surbs as nat, i as nat).1,
                    }) && blueprints@[i]@.wf()
            },
            None => spec_num_fragments(data@.len(), num_surbs as nat) > MAX_FRAGMENTS,
        },
{
    let count = match num_fragments(data.len(), num_surbs) {
        Some(count) => count,
        None => {
            return None;
        },
    };
    let mut blueprints: Vec<FragmentBlueprint<'a>> = Vec::new();
    let mut offset: usize = 0;
    let mut remaining_surbs: usize = num_surbs;
    let mut i: usize = 0;
    assert(data@.skip(0) =~= data@);
    while i < count
        invariant
            i <= count,
            1 <= count <= MAX_FRAGMENTS,
            count == spec_num_fragments(data@.len(), num_surbs as nat),
            offset <= data@.len(),
            remaining_surbs <= num_surbs,
            blueprints@.len() == i,
            i < count ==> spec_num_fragments(
                (data@.len() - offset) as nat,
                remaining_surbs as nat,
            ) == count - i,
            forall|j: nat|
                spec_fragment(data@, num_surbs as nat, (i + j) as nat) == #[trigger] spec_fragment(
                    data@.skip(offset as int),
                    remaining_surbs as nat,
                    j,
                ),
            forall|k: int|
                0 <= k < i ==> (#[trigger] blueprints@[k])@ == (BlueprintView {
                    message_id: message_id@,
                    last_index: (count - 1) as u16,
                    index: k as u16,
                    data: spec_fragment(data@, num_surbs as nat, k as nat).0,
                    num_surbs: spec_fragment(data@, num_surbs as nat, k as nat).1,
                }) && blueprints@[k]@.wf(),
        decreases count - i,
    {
        let s: usize = if remaining_surbs < MAX_SURBS_PER_FRAGMENT {
            remaining_surbs
        } else {
            MAX_SURBS_PER_FRAGMENT
        };
        let room: usize = FRAGMENT_PAYLOAD_SIZE - s * SURB_SIZE;
        let d: usize = if data.len() - offset < room {
            data.len() - offset
        } else {
            room
        };
        let ghost rest = data@.skip(offset as int);
        proof {
            assert(spec_fragment(data@, num_surbs as nat, (i + 0) as nat) == spec_fragment(
                rest,
                remaining_surbs as nat,
                0,
            ));
            assert(rest.take(d as int) =~= data@.subrange(offset as int, offset + d));
            assert forall|j: nat|
                spec_fragment(data@, num_surbs as nat, (i + 1 + j) as nat) == #[trigger] spec_fragment(
                    data@.skip(offset + d),
                    (remaining_surbs - s) as nat,
                    j,
                ) by {
                assert(spec_fragment(data@, num_surbs as nat, (i + (j + 1)) as nat) == spec_fragment(
                    rest,
                    remaining_surbs as nat,
                    j + 1,
                ));
                assert(rest.skip(d as int) =~= data@.skip(offset + d));
            }
        }
        blueprints.push(
            FragmentBlueprint {
                message_id: *message_id,
                last_index: (count - 1) as u16,
                index: i as u16,
                data: slice_subrange(data, offset, offset + d),
                num_surbs: s,
            },
        );
        offset += d;
        remaining_surbs -= s;
        i += 1;
    }
    Some(blueprints)
}

} // verus!

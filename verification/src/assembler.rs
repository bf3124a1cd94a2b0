//! Reassembly of messages from their fragments, in bounded space.

use crate::fragment::{
    le16_at, spec_parse, spec_surb_offset, spec_surbs, FragmentView, MessageId, FRAGMENT_HEADER_SIZE,
    FRAGMENT_PAYLOAD_SIZE, MAX_SURBS_PER_FRAGMENT, MESSAGE_ID_SIZE,
};
use crate::sphinx::{same_bytes, PayloadData, Surb, SURB_SIZE};
use std::collections::VecDeque;
use vstd::prelude::*;

verus! {

/// The byte strings of a list of SURBs.
pub open spec fn surbs_view(surbs: Seq<Surb>) -> Seq<Seq<u8>> {
    surbs.map_values(|s: Surb| s@)
}

/// A fragment, taken apart.
#[derive(Debug, PartialEq, Eq)]
pub struct Fragment {
    pub message_id: MessageId,
    pub last_index: u16,
    pub index: u16,
    pub data: Vec<u8>,
    pub surbs: Vec<Surb>,
}

impl View for Fragment {
    type V = FragmentView;

    open spec fn view(&self) -> FragmentView {
        FragmentView {
            message_id: self.message_id@,
            last_index: self.last_index,
            index: self.index,
            data: self.data@,
            surbs: surbs_view(self.surbs@),
        }
    }
}

/// Takes the bytes of a fragment apart. Returns `None` if they are no
/// fragment.
pub fn parse_fragment(bytes: &PayloadData) -> (r: Option<Fragment>)
    ensures
        match r {
            Some(fragment) => spec_parse(bytes@) == Some(fragment@),
            None => spec_parse(bytes@).is_none(),
        },
{
    let last_index: u16 = bytes[MESSAGE_ID_SIZE] as u16 + 256 * (bytes[MESSAGE_ID_SIZE + 1] as u16);
    let index: u16 = bytes[MESSAGE_ID_SIZE + 2] as u16 + 256 * (bytes[MESSAGE_ID_SIZE + 3] as u16);
    let data_size: usize = bytes[MESSAGE_ID_SIZE + 4] as usize + 256 * (bytes[MESSAGE_ID_SIZE
        + 5] as usize);
    let num_surbs: usize = bytes[MESSAGE_ID_SIZE + 6] as usize;
    if index > last_index || num_surbs > MAX_SURBS_PER_FRAGMENT || data_size + num_surbs * SURB_SIZE
        > FRAGMENT_PAYLOAD_SIZE {
        return None;
    }
    let mut message_id: MessageId = [0u8; MESSAGE_ID_SIZE];
    let mut i: usize = 0;
    while i < MESSAGE_ID_SIZE
        invariant
            i <= MESSAGE_ID_SIZE,
            forall|j: int| 0 <= j < i ==> message_id[j] == bytes[j],
        decreases MESSAGE_ID_SIZE - i,
    {
        message_id[i] = bytes[i];
        i += 1;
    }
    let mut data: Vec<u8> = Vec::new();
    let mut k: usize = 0;
    while k < data_size
        invariant
            k <= data_size,
            data_size <= FRAGMENT_PAYLOAD_SIZE,
            data@.len() == k,
            forall|j: int| 0 <= j < k ==> data@[j] == bytes[FRAGMENT_HEADER_SIZE + j],
        decreases data_size - k,
    {
        data.push(bytes[FRAGMENT_HEADER_SIZE + k]);
        k += 1;
    }
    let mut surbs: Vec<Surb> = Vec::new();
    let mut s: usize = 0;
    while s < num_surbs
        invariant
            s <= num_surbs,
            num_surbs <= MAX_SURBS_PER_FRAGMENT,
            surbs@.len() == s,
            forall|j: int|
                0 <= j < s ==> (#[trigger] surbs@[j])@ == bytes@.subrange(
                    spec_surb_offset(j),
                    spec_surb_offset(j) + SURB_SIZE,
                ),
        decreases num_surbs - s,
    {
        let offset: usize = crate::fragment::surb_offset(s);
        let mut surb: Surb = [0u8; SURB_SIZE];
        let mut b: usize = 0;
        while b < SURB_SIZE
            invariant
                b <= SURB_SIZE,
                offset + SURB_SIZE <= bytes@.len(),
                forall|j: int| 0 <= j < b ==> surb[j] == bytes[offset + j],
            decreases SURB_SIZE - b,
        {
            surb[b] = bytes[offset + b];
            b += 1;
        }
        assert(surb@ =~= bytes@.subrange(offset as int, offset + SURB_SIZE));
        surbs.push(surb);
        s += 1;
    }
    proof {
        assert(message_id@ =~= bytes@.subrange(0, MESSAGE_ID_SIZE as int));
        assert(data@ =~= bytes@.subrange(
            FRAGMENT_HEADER_SIZE as int,
            FRAGMENT_HEADER_SIZE + data_size,
        ));
        assert(surbs_view(surbs@) =~= spec_surbs(bytes@, num_surbs as nat));
        assert(le16_at(bytes@, MESSAGE_ID_SIZE as int) == last_index);
        assert(le16_at(bytes@, MESSAGE_ID_SIZE + 2) == index);
        assert(le16_at(bytes@, MESSAGE_ID_SIZE + 4) == data_size);
    }
    Some(Fragment { message_id, last_index, index, data, surbs })
}

/// The data and the SURBs of one fragment.
pub struct FragmentContent {
    pub data: Vec<u8>,
    pub surbs: Vec<Surb>,
}

/// The data and the SURBs of one fragment, as byte strings.
pub struct ContentView {
    pub data: Seq<u8>,
    pub surbs: Seq<Seq<u8>>,
}

impl View for FragmentContent {
    type V = ContentView;

    open spec fn view(&self) -> ContentView {
        ContentView { data: self.data@, surbs: surbs_view(self.surbs@) }
    }
}

/// A message of which some fragments are still missing: its identifier and
/// one slot for each of its fragments.
pub struct MessageView {
    pub id: Seq<u8>,
    pub slots: Seq<Option<ContentView>>,
}

/// A message with all its fragments put together.
pub struct CompleteMessageView {
    pub id: Seq<u8>,
    pub data: Seq<u8>,
    pub surbs: Seq<Seq<u8>>,
}

/// Number of fragments in `slots`.
pub open spec fn received(slots: Seq<Option<ContentView>>) -> nat
    decreases slots.len(),
{
    if slots.len() == 0 {
        0
    } else {
        received(slots.drop_last()) + if slots.last().is_some() {
            1nat
        } else {
            0nat
        }
    }
}

/// Whether no fragment is missing from `slots`.
pub open spec fn complete(slots: Seq<Option<ContentView>>) -> bool {
    forall|i: int| 0 <= i < slots.len() ==> (#[trigger] slots[i]).is_some()
}

/// The data of the fragments in `slots`, in the order of the slots.
pub open spec fn assembled_data(slots: Seq<Option<ContentView>>) -> Seq<u8>
    decreases slots.len(),
{
    if slots.len() == 0 {
        Seq::empty()
    } else {
        assembled_data(slots.drop_last()) + match slots.last() {
            Some(content) => content.data,
            None => Seq::empty(),
        }
    }
}

/// The SURBs of the fragments in `slots`, in the order of the slots.
pub open spec fn assembled_surbs(slots: Seq<Option<ContentView>>) -> Seq<Seq<u8>>
    decreases slots.len(),
{
    if slots.len() == 0 {
        Seq::empty()
    } else {
        assembled_surbs(slots.drop_last()) + match slots.last() {
            Some(content) => content.surbs,
            None => Seq::empty(),
        }
    }
}

/// Number of fragments held for the messages in `messages`.
pub open spec fn total_fragments(messages: Seq<MessageView>) -> nat
    decreases messages.len(),
{
    if messages.len() == 0 {
        0
    } else {
        total_fragments(messages.drop_last()) + received(messages.last().slots)
    }
}

/// Whether `messages` holds a message with identifier `id`.
pub open spec fn holds_message(messages: Seq<MessageView>, id: Seq<u8>) -> bool {
    exists|i: int| 0 <= i < messages.len() && (#[trigger] messages[i]).id == id
}

/// The position of the message with identifier `id`.
pub open spec fn message_position(messages: Seq<MessageView>, id: Seq<u8>) -> int {
    choose|i: int| 0 <= i < messages.len() && (#[trigger] messages[i]).id == id
}

/// Whether no identifier occurs twice in `messages`.
pub open spec fn distinct_messages(messages: Seq<MessageView>) -> bool {
    forall|i: int, j: int| 0 <= i < j < messages.len() ==> messages[i].id != messages[j].id
}

/// `count` slots with nothing in them.
pub open spec fn empty_slots(count: nat) -> Seq<Option<ContentView>> {
    Seq::new(count, |i: int| None)
}

/// The limits of a fragment assembler.
pub struct Limits {
    /// Maximum number of messages under reassembly.
    pub max_incomplete_messages: nat,
    /// Maximum number of fragments held for messages under reassembly.
    pub max_incomplete_fragments: nat,
    /// Maximum number of fragments of one message.
    pub max_fragments_per_message: nat,
}

/// What is left of `messages` once room has been made for a message of which
/// `incoming` fragments are held: messages go, least recently touched first,
/// until there is room for one more message and for its fragments.
pub open spec fn make_room(messages: Seq<MessageView>, limits: Limits, incoming: nat) -> Seq<
    MessageView,
>
    decreases messages.len(),
{
    if messages.len() > 0 && (messages.len() >= limits.max_incomplete_messages || total_fragments(
        messages,
    ) + incoming > limits.max_incomplete_fragments) {
        make_room(messages.drop_first(), limits, incoming)
    } else {
        messages
    }
}

/// What becomes of a message that has just received a fragment, beside the
/// other `messages`. A complete message is put together and leaves. An
/// incomplete one is kept as the most recently touched, after room has been
/// made for it; if there is no room for it even then, it is dropped.
pub open spec fn settle(messages: Seq<MessageView>, limits: Limits, message: MessageView) -> (
    Seq<MessageView>,
    Option<CompleteMessageView>,
) {
    if complete(message.slots) {
        (
            messages,
            Some(
                CompleteMessageView {
                    id: message.id,
                    data: assembled_data(message.slots),
                    surbs: assembled_surbs(message.slots),
                },
            ),
        )
    } else {
        let kept = make_room(messages, limits, received(message.slots));
        if kept.len() < limits.max_incomplete_messages && total_fragments(kept) + received(
            message.slots,
        ) <= limits.max_incomplete_fragments {
            (kept.push(message), None)
        } else {
            (kept, None)
        }
    }
}

/// The messages under reassembly after `fragment` has arrived, and the
/// message that it completed, if any. A fragment is ignored if its message
/// has more fragments than the limit allows, if it does not agree with the
/// earlier fragments of its message on their number, or if it has arrived
/// before.
pub open spec fn spec_insert(messages: Seq<MessageView>, limits: Limits, fragment: FragmentView) -> (
    Seq<MessageView>,
    Option<CompleteMessageView>,
) {
    let count = fragment.last_index + 1;
    let content = Some(ContentView { data: fragment.data, surbs: fragment.surbs });
    if count > limits.max_fragments_per_message {
        (messages, None)
    } else if holds_message(messages, fragment.message_id) {
        let position = message_position(messages, fragment.message_id);
        let message = messages[position];
        if message.slots.len() != count || message.slots[fragment.index as int].is_some() {
            (messages, None)
        } else {
            settle(
                messages.remove(position),
                limits,
                MessageView {
                    id: message.id,
                    slots: message.slots.update(fragment.index as int, content),
                },
            )
        }
    } else {
        settle(
            messages,
            limits,
            MessageView {
                id: fragment.message_id,
                slots: empty_slots(count as nat).update(fragment.index as int, content),
            },
        )
    }
}

/// The messages under reassembly after the bytes of a fragment have arrived,
/// and the message that they completed, if any. Bytes that are no fragment
/// change nothing.
pub open spec fn spec_insert_bytes(messages: Seq<MessageView>, limits: Limits, bytes: Seq<u8>) -> (
    Seq<MessageView>,
    Option<CompleteMessageView>,
) {
    match spec_parse(bytes) {
        Some(fragment) => spec_insert(messages, limits, fragment),
        None => (messages, None),
    }
}

/// The view of a message, if there is one.
pub open spec fn complete_view(message: Option<CompleteMessage>) -> Option<CompleteMessageView> {
    match message {
        Some(message) => Some(message@),
        None => None,
    }
}

pub proof fn lemma_received_bounds(slots: Seq<Option<ContentView>>)
    ensures
        received(slots) <= slots.len(),
        received(slots) == slots.len() <==> complete(slots),
    decreases slots.len(),
{
    if slots.len() > 0 {
        let front = slots.drop_last();
        lemma_received_bounds(front);
        if complete(slots) {
            assert forall|i: int| 0 <= i < front.len() implies (#[trigger] front[i]).is_some() by {
                assert(slots[i].is_some());
            }
            assert(slots[slots.len() - 1].is_some());
        }
        if received(slots) == slots.len() {
            assert forall|i: int| 0 <= i < slots.len() implies (#[trigger] slots[i]).is_some() by {
                if i < front.len() {
                    assert(front[i].is_some());
                }
            }
        }
    }
}

pub proof fn lemma_received_update(slots: Seq<Option<ContentView>>, i: int, content: ContentView)
    requires
        0 <= i < slots.len(),
        slots[i].is_none(),
    ensures
        received(slots.update(i, Some(content))) == received(slots) + 1,
    decreases slots.len(),
{
    let updated = slots.update(i, Some(content));
    if i == slots.len() - 1 {
        assert(updated.drop_last() =~= slots.drop_last());
    } else {
        assert(updated.drop_last() =~= slots.drop_last().update(i, Some(content)));
        lemma_received_update(slots.drop_last(), i, content);
    }
}

pub proof fn lemma_received_empty(count: nat)
    ensures
        received(empty_slots(count)) == 0,
    decreases count,
{
    if count > 0 {
        assert(empty_slots(count).drop_last() =~= empty_slots((count - 1) as nat));
        lemma_received_empty((count - 1) as nat);
    }
}

pub proof fn lemma_total_remove(messages: Seq<MessageView>, position: int)
    requires
        0 <= position < messages.len(),
    ensures
        total_fragments(messages.remove(position)) + received(messages[position].slots)
            == total_fragments(messages),
    decreases messages.len(),
{
    if position == messages.len() - 1 {
        assert(messages.remove(position) =~= messages.drop_last());
    } else {
        assert(messages.remove(position).drop_last() =~= messages.drop_last().remove(position));
        assert(messages.remove(position).last() == messages.last());
        lemma_total_remove(messages.drop_last(), position);
    }
}

pub proof fn lemma_total_push(messages: Seq<MessageView>, message: MessageView)
    ensures
        total_fragments(messages.push(message)) == total_fragments(messages) + received(
            message.slots,
        ),
{
    assert(messages.push(message).drop_last() =~= messages);
}

/// What a well-formed assembler holds: no message twice, no more messages
/// and fragments than the limits allow, and of each message at least one
/// fragment but not all.
pub open spec fn well_formed(messages: Seq<MessageView>, limits: Limits) -> bool {
    &&& distinct_messages(messages)
    &&& messages.len() <= limits.max_incomplete_messages
    &&& total_fragments(messages) <= limits.max_incomplete_fragments
    &&& forall|i: int|
        0 <= i < messages.len() ==> {
            &&& (#[trigger] messages[i]).id.len() == MESSAGE_ID_SIZE
            &&& 0 < received(messages[i].slots) < messages[i].slots.len()
            &&& messages[i].slots.len() <= limits.max_fragments_per_message
        }
}

/// The views of the slots of a message.
pub open spec fn slots_view(slots: Seq<Option<FragmentContent>>) -> Seq<Option<ContentView>> {
    slots.map_values(
        |slot: Option<FragmentContent>|
            match slot {
                Some(content) => Some(content@),
                None => None,
            },
    )
}

/// A message of which some fragments are still missing.
pub struct IncompleteMessage {
    id: MessageId,
    slots: Vec<Option<FragmentContent>>,
    num_received: usize,
}

impl View for IncompleteMessage {
    type V = MessageView;

    closed spec fn view(&self) -> MessageView {
        MessageView { id: self.id@, slots: slots_view(self.slots@) }
    }
}

/// A message with all its fragments put together.
#[derive(Debug, PartialEq, Eq)]
pub struct CompleteMessage {
    pub id: MessageId,
    pub data: Vec<u8>,
    pub surbs: Vec<Surb>,
}

impl View for CompleteMessage {
    type V = CompleteMessageView;

    open spec fn view(&self) -> CompleteMessageView {
        CompleteMessageView { id: self.id@, data: self.data@, surbs: surbs_view(self.surbs@) }
    }
}

fn append_bytes(to: &mut Vec<u8>, from: &Vec<u8>)
    ensures
        final(to)@ == old(to)@ + from@,
{
    let mut i: usize = 0;
    while i < from.len()
        invariant
            i <= from@.len(),
            to@ == old(to)@ + from@.take(i as int),
        decreases from@.len() - i,
    {
        to.push(from[i]);
        assert(from@.take(i + 1) =~= from@.take(i as int).push(from@[i as int]));
        i += 1;
    }
    assert(from@.take(from@.len() as int) =~= from@);
}

fn append_surbs(to: &mut Vec<Surb>, from: &Vec<Surb>)
    ensures
        surbs_view(final(to)@) == surbs_view(old(to)@) + surbs_view(from@),
{
    let mut i: usize = 0;
    while i < from.len()
        invariant
            i <= from@.len(),
            to@ == old(to)@ + from@.take(i as int),
        decreases from@.len() - i,
    {
        to.push(from[i]);
        assert(from@.take(i + 1) =~= from@.take(i as int).push(from@[i as int]));
        i += 1;
    }
    assert(from@.take(from@.len() as int) =~= from@);
    assert(surbs_view(to@) =~= surbs_view(old(to)@) + surbs_view(from@));
}

/// Puts the fragments of a message together.
fn assemble(message: &IncompleteMessage) -> (r: CompleteMessage)
    ensures
        r@ == (CompleteMessageView {
            id: message@.id,
            data: assembled_data(message@.slots),
            surbs: assembled_surbs(message@.slots),
        }),
{
    let mut data: Vec<u8> = Vec::new();
    let mut surbs: Vec<Surb> = Vec::new();
    let ghost slots = message@.slots;
    let mut i: usize = 0;
    assert(surbs_view(surbs@) =~= Seq::<Seq<u8>>::empty());
    while i < message.slots.len()
        invariant
            i <= message.slots@.len(),
            slots == slots_view(message.slots@),
            data@ == assembled_data(slots.take(i as int)),
            surbs_view(surbs@) == assembled_surbs(slots.take(i as int)),
        decreases message.slots@.len() - i,
    {
        proof {
            assert(slots.take(i + 1).drop_last() =~= slots.take(i as int));
            assert(slots.take(i + 1).last() == slots[i as int]);
        }
        match &message.slots[i] {
            Some(content) => {
                append_bytes(&mut data, &content.data);
                append_surbs(&mut surbs, &content.surbs);
            },
            None => {
                assert(data@ + Seq::<u8>::empty() =~= data@);
                assert(surbs_view(surbs@) + Seq::<Seq<u8>>::empty() =~= surbs_view(surbs@));
            },
        }
        i += 1;
    }
    assert(slots.take(slots.len() as int) =~= slots);
    CompleteMessage { id: message.id, data, surbs }
}

fn new_slots(count: usize, index: usize, content: FragmentContent) -> (r: Vec<Option<FragmentContent>>)
    requires
        index < count,
    ensures
        slots_view(r@) == empty_slots(count as nat).update(index as int, Some(content@)),
{
    let mut slots: Vec<Option<FragmentContent>> = Vec::new();
    let mut i: usize = 0;
    while i < count
        invariant
            i <= count,
            slots@.len() == i,
            forall|j: int| 0 <= j < i ==> (#[trigger] slots@[j]).is_none(),
        decreases count - i,
    {
        slots.push(None);
        i += 1;
    }
    slots.set(index, Some(content));
    assert(slots_view(slots@) =~= empty_slots(count as nat).update(index as int, Some(content@)));
    slots
}

/// Reassembles messages from their fragments. The messages under reassembly
/// are kept in the order in which they last received a fragment, and the
/// least recently touched go first when room is needed.
pub struct FragmentAssembler {
    max_incomplete_messages: usize,
    max_incomplete_fragments: usize,
    max_fragments_per_message: usize,
    messages: VecDeque<IncompleteMessage>,
    num_fragments: usize,
}

impl View for FragmentAssembler {
    type V = Seq<MessageView>;

    /// The messages under reassembly, least recently touched first.
    closed spec fn view(&self) -> Seq<MessageView> {
        self.messages@.map_values(|m: IncompleteMessage| m@)
    }
}

impl FragmentAssembler {
    /// The limits that the assembler was made with.
    pub closed spec fn spec_limits(&self) -> Limits {
        Limits {
            max_incomplete_messages: self.max_incomplete_messages as nat,
            max_incomplete_fragments: self.max_incomplete_fragments as nat,
            max_fragments_per_message: self.max_fragments_per_message as nat,
        }
    }

    spec fn counts_hold(&self) -> bool {
        &&& self.num_fragments == total_fragments(self@)
        &&& forall|i: int|
            0 <= i < self.messages@.len() ==> (#[trigger] self.messages@[i]).num_received
                == received(self.messages@[i]@.slots)
    }

    /// What is held is well-formed under the limits, and the counts that the
    /// assembler keeps are those of what it holds.
    pub closed spec fn wf(&self) -> bool {
        &&& well_formed(self@, self.spec_limits())
        &&& self.counts_hold()
    }

    /// What a well-formed assembler holds is well-formed under its limits.
    pub proof fn lemma_wf(&self)
        requires
            self.wf(),
        ensures
            well_formed(self@, self.spec_limits()),
    {
    }

    pub fn new(
        max_incomplete_messages: usize,
        max_incomplete_fragments: usize,
        max_fragments_per_message: usize,
    ) -> (r: FragmentAssembler)
        ensures
            r.wf(),
            r@ == Seq::<MessageView>::empty(),
            r.spec_limits() == (Limits {
                max_incomplete_messages: max_incomplete_messages as nat,
                max_incomplete_fragments: max_incomplete_fragments as nat,
                max_fragments_per_message: max_fragments_per_message as nat,
            }),
    {
        let r = FragmentAssembler {
            max_incomplete_messages,
            max_incomplete_fragments,
            max_fragments_per_message,
            messages: VecDeque::new(),
            num_fragments: 0,
        };
        assert(r@ =~= Seq::<MessageView>::empty());
        r
    }

    /// Returns the number of messages under reassembly.
    pub fn num_incomplete_messages(&self) -> (r: usize)
        ensures
            r == self@.len(),
    {
        self.messages.len()
    }

    /// Returns the number of fragments held.
    pub fn num_incomplete_fragments(&self) -> (r: usize)
        requires
            self.wf(),
        ensures
            r == total_fragments(self@),
    {
        self.num_fragments
    }

    fn find(&self, id: &MessageId) -> (r: Option<usize>)
        ensures
            match r {
                Some(i) => i < self@.len() && self@[i as int].id == id@,
                None => !holds_message(self@, id@),
            },
    {
        let mut i: usize = 0;
        while i < self.messages.len()
            invariant
                i <= self.messages@.len(),
                self@.len() == self.messages@.len(),
                forall|j: int| 0 <= j < i ==> (#[trigger] self@[j]).id != id@,
            decreases self.messages@.len() - i,
        {
            assert(self@[i as int].id == self.messages@[i as int].id@);
            if same_bytes(&self.messages[i].id, id) {
                return Some(i);
            }
            i += 1;
        }
        None
    }

    /// Takes a fragment in. Returns the message that the fragment completed,
    /// if it completed one.
    pub fn insert(&mut self, bytes: &PayloadData) -> (r: Option<CompleteMessage>)
        requires
            old(self).wf(),
        ensures
            final(self).wf(),
            final(self).spec_limits() == old(self).spec_limits(),
            final(self)@ == spec_insert_bytes(old(self)@, old(self).spec_limits(), bytes@).0,
            complete_view(r) == spec_insert_bytes(old(self)@, old(self).spec_limits(), bytes@).1,
    {
        let fragment = match parse_fragment(bytes) {
            Some(fragment) => fragment,
            None => {
                return None;
            },
        };
        let ghost parsed = fragment@;
        let count: usize = fragment.last_index as usize + 1;
        if count > self.max_fragments_per_message {
            return None;
        }
        let index: usize = fragment.index as usize;
        let id: MessageId = fragment.message_id;
        let content = FragmentContent { data: fragment.data, surbs: fragment.surbs };
        let ghost content_view = content@;
        let message = match self.find(&id) {
            Some(position) => {
                proof {
                    assert(self@[position as int] == self.messages@[position as int]@);
                    assert(message_position(self@, id@) == position);
                    assert(self.messages@[position as int]@.slots.len()
                        == self.messages@[position as int].slots@.len());
                }
                if self.messages[position].slots.len() != count {
                    return None;
                }
                assert(self.messages@[position as int]@.slots[index as int].is_some()
                    == self.messages@[position as int].slots@[index as int].is_some());
                if self.messages[position].slots[index].is_some() {
                    return None;
                }
                proof {
                    lemma_total_remove(self@, position as int);
                    lemma_remove_distinct(self@, position as int);
                    lemma_received_update(self@[position as int].slots, index as int, content_view);
                    lemma_received_bounds(self@[position as int].slots);
                }
                let removed = self.messages.remove(position);
                assert(self@ =~= old(self)@.remove(position as int));
                match removed {
                    Some(mut message) => {
                        self.num_fragments = self.num_fragments - message.num_received;
                        let ghost before = message.slots@;
                        message.slots.set(index, Some(content));
                        message.num_received = message.num_received + 1;
                        assert(slots_view(message.slots@) =~= slots_view(before).update(
                            index as int,
                            Some(content_view),
                        ));
                        message
                    },
                    None => {
                        return None;
                    },
                }
            },
            None => {
                proof {
                    lemma_received_empty(count as nat);
                    lemma_received_update(empty_slots(count as nat), index as int, content_view);
                }
                IncompleteMessage { id, slots: new_slots(count, index, content), num_received: 1 }
            },
        };
        self.settle(message)
    }

    /// Whether the assembler is well-formed and ready to settle `message`,
    /// which it does not hold.
    spec fn ready_for(&self, message: IncompleteMessage) -> bool {
        &&& self.wf()
        &&& !holds_message(self@, message@.id)
        &&& message@.id.len() == MESSAGE_ID_SIZE
        &&& message.num_received == received(message@.slots)
        &&& 0 < message.num_received
        &&& message@.slots.len() <= self.max_fragments_per_message
        &&& message@.slots.len() == message.slots@.len()
    }

    fn settle(&mut self, message: IncompleteMessage) -> (r: Option<CompleteMessage>)
        requires
            old(self).ready_for(message),
        ensures
            final(self).wf(),
            final(self).spec_limits() == old(self).spec_limits(),
            final(self)@ == settle(old(self)@, old(self).spec_limits(), message@).0,
            match r {
                Some(complete) => Some(complete@) == settle(
                    old(self)@,
                    old(self).spec_limits(),
                    message@,
                ).1,
                None => settle(old(self)@, old(self).spec_limits(), message@).1.is_none(),
            },
    {
        proof {
            lemma_received_bounds(message@.slots);
        }
        if message.num_received == message.slots.len() {
            return Some(assemble(&message));
        }
        let incoming: usize = message.num_received;
        let ghost limits = self.spec_limits();
        while self.messages.len() > 0 && (self.messages.len() >= self.max_incomplete_messages
            || incoming > self.max_incomplete_fragments - self.num_fragments)
            invariant
                self.wf(),
                self.spec_limits() == limits,
                limits == old(self).spec_limits(),
                !holds_message(self@, message@.id),
                make_room(self@, limits, incoming as nat) == make_room(
                    old(self)@,
                    limits,
                    incoming as nat,
                ),
            decreases self.messages@.len(),
        {
            let ghost before = self@;
            proof {
                lemma_total_remove(before, 0);
                lemma_remove_distinct(before, 0);
                assert(before.drop_first() =~= before.remove(0));
                assert(before[0] == self.messages@[0]@);
            }
            let dropped = self.messages.pop_front();
            assert(self@ =~= before.drop_first());
            match dropped {
                Some(dropped) => {
                    self.num_fragments = self.num_fragments - dropped.num_received;
                },
                None => {},
            }
            proof {
                assert forall|i: int| 0 <= i < self@.len() implies (#[trigger] self@[i]).id
                    != message@.id by {
                    assert(before[i + 1].id != message@.id);
                }
            }
        }
        if self.messages.len() < self.max_incomplete_messages && incoming
            <= self.max_incomplete_fragments - self.num_fragments {
            let ghost before = self@;
            proof {
                lemma_total_push(before, message@);
            }
            self.num_fragments = self.num_fragments + incoming;
            self.messages.push_back(message);
            assert(self@ =~= before.push(message@));
            proof {
                assert forall|i: int, j: int| 0 <= i < j < self@.len() implies self@[i].id
                    != self@[j].id by {
                    if j == before.len() {
                        assert(before[i].id != message@.id);
                    } else {
                        assert(before[i].id != before[j].id);
                    }
                }
            }
        }
        None
    }
}

pub proof fn lemma_remove_distinct(messages: Seq<MessageView>, position: int)
    requires
        distinct_messages(messages),
        0 <= position < messages.len(),
    ensures
        distinct_messages(messages.remove(position)),
        !holds_message(messages.remove(position), messages[position].id),
{
    let after = messages.remove(position);
    assert forall|a: int, b: int| 0 <= a < b < after.len() implies after[a].id != after[b].id by {
        let a0 = if a < position { a } else { a + 1 };
        let b0 = if b < position { b } else { b + 1 };
        assert(after[a] == messages[a0]);
        assert(after[b] == messages[b0]);
    }
    assert forall|a: int| 0 <= a < after.len() implies (#[trigger] after[a]).id
        != messages[position].id by {
        let a0 = if a < position { a } else { a + 1 };
        assert(after[a] == messages[a0]);
    }
}

} // verus!

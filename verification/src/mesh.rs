//! The transport-agnostic mesh core: "flood all connections with
//! deduplication".
//!
//! Both BLE roles register their links here. Everything above the raw bytes
//! (de-dup, TTL, fan-out) lives in one place, so that the flood logic is the
//! same for every link. The mesh holds no channels: what has to be shown or
//! written out is handed back to the caller, who performs it.
use crate::protocol::{
    after_hops, decode_inverts_encode, decoded, drawn, encoded, encoded_packet_fits,
    forwarding_keeps_encodable, is_random_uuid, next_hop, ttl_bounds_hops, DecodeError, Packet,
    PacketView, DEFAULT_TTL, MAX_PACKET_SIZE,
};
use crate::seen::{
    adds_entry, adds_id, age, age_runs_from_the_first_meeting, applied, applied_all,
    arrival_keeps_inv, arrived, entries_added, entries_are_not_dated_ahead, id_grows_stale,
    id_is_crowded_out, id_stays_known, ids, is_known, memory_stays_tidy, new_id_has_sole_entry,
    only_met_ids_are_known, recorded, recording_keeps_inv, seen_inv, tidy, SeenCache, SeenOp,
    SeenView, SEEN_CAPACITY, SEEN_TTL,
};
use std::time::Instant;
use vstd::prelude::*;

verus! {

/// Names one link of this node. Ids are never used twice.
pub type LinkId = u64;

/// A freshly registered link.
#[derive(Debug, Clone, Copy, PartialEq, Eq)]
pub struct LinkHandle {
    pub id: LinkId,
}

/// Something the user interface should show.
#[derive(Debug, PartialEq, Eq)]
pub enum UiEvent {
    Message { sender: String, text: String },
    LinkCountChanged(usize),
}

/// One encoded packet and the links it has to be written to.
#[derive(Debug, PartialEq, Eq)]
pub struct Flood {
    pub data: Vec<u8>,
    pub to: Vec<LinkId>,
}

/// What has to be done about a packet that arrived.
#[derive(Debug, PartialEq, Eq)]
pub struct Delivery {
    pub ui: Option<UiEvent>,
    pub flood: Option<Flood>,
}

/// The state of one node: its links, in order of registration, and the
/// messages it has seen.
pub struct Mesh {
    links: Vec<LinkId>,
    seen: SeenCache,
    next_link_id: LinkId,
    pub nickname: String,
    epoch: Instant,
    latest: u128,
}

// ---------------------------------------------------------------------------
// Model
// ---------------------------------------------------------------------------

/// The mathematical content of a [`UiEvent`].
pub enum UiView {
    Message { sender: Seq<char>, text: Seq<char> },
    LinkCountChanged(nat),
}

/// The mathematical content of a [`Flood`].
#[verifier::ext_equal]
pub struct FloodView {
    pub data: Seq<u8>,
    pub to: Seq<LinkId>,
}

/// The mathematical content of a [`Delivery`].
pub struct DeliveryView {
    pub ui: Option<UiView>,
    pub flood: Option<FloodView>,
}

/// The mathematical content of a [`Mesh`].
#[verifier::ext_equal]
pub struct MeshView {
    pub links: Seq<LinkId>,
    pub seen: SeenView,
    pub next_link_id: int,
    pub nickname: Seq<char>,
    /// The start of the clock that dates what was seen.
    pub clock_start: Instant,
    /// The latest time, in nanoseconds since the start of the clock, at which
    /// a packet was met or made.
    pub clock: int,
}

impl View for UiEvent {
    type V = UiView;

    open spec fn view(&self) -> UiView {
        match self {
            UiEvent::Message { sender, text } => UiView::Message { sender: sender@, text: text@ },
            UiEvent::LinkCountChanged(n) => UiView::LinkCountChanged(*n as nat),
        }
    }
}

impl View for Flood {
    type V = FloodView;

    open spec fn view(&self) -> FloodView {
        FloodView { data: self.data@, to: self.to@ }
    }
}

impl View for Delivery {
    type V = DeliveryView;

    open spec fn view(&self) -> DeliveryView {
        DeliveryView { ui: ui_view(self.ui), flood: flood_view(self.flood) }
    }
}

impl View for Mesh {
    type V = MeshView;

    closed spec fn view(&self) -> MeshView {
        MeshView {
            links: self.links@,
            seen: self.seen@,
            next_link_id: self.next_link_id as int,
            nickname: self.nickname@,
            clock_start: self.epoch,
            clock: self.latest as int,
        }
    }
}

/// The view of an optional event.
pub open spec fn ui_view(ui: Option<UiEvent>) -> Option<UiView> {
    match ui {
        Some(event) => Some(event@),
        None => None,
    }
}

/// The view of an optional flood.
pub open spec fn flood_view(flood: Option<Flood>) -> Option<FloodView> {
    match flood {
        Some(f) => Some(f@),
        None => None,
    }
}

/// Nothing to show and nothing to send.
pub open spec fn nothing() -> DeliveryView {
    DeliveryView { ui: None, flood: None }
}

/// What holds of a mesh at all times: the link ids ascend and have all been
/// given out, and the memory of seen messages is bounded and consistent.
pub open spec fn mesh_inv(m: MeshView) -> bool {
    &&& forall|i: int, j: int| 0 <= i < j < m.links.len() ==> m.links[i] < m.links[j]
    &&& forall|i: int| 0 <= i < m.links.len() ==> #[trigger] m.links[i] < m.next_link_id
    &&& 0 <= m.next_link_id <= LinkId::MAX
    &&& seen_inv(m.seen)
}

/// The links but for an excluded one.
pub open spec fn except(links: Seq<LinkId>, exclude: Option<LinkId>) -> Seq<LinkId> {
    links.filter(|id: LinkId| Some(id) != exclude)
}

/// The flood of a packet over all links but an excluded one. A packet that
/// cannot be encoded is not sent at all.
pub open spec fn flooded(
    links: Seq<LinkId>,
    p: PacketView,
    exclude: Option<LinkId>,
) -> Option<FloodView> {
    match encoded(p) {
        Ok(data) => Some(FloodView { data, to: except(links, exclude) }),
        Err(_) => None,
    }
}

/// The mesh with one more link.
pub open spec fn with_link(m: MeshView) -> MeshView {
    MeshView {
        links: m.links.push(m.next_link_id as LinkId),
        next_link_id: m.next_link_id + 1,
        ..m
    }
}

/// The mesh without a link.
pub open spec fn without_link(m: MeshView, id: LinkId) -> MeshView {
    MeshView { links: except(m.links, Some(id)), ..m }
}

/// The later of two times.
pub open spec fn later_of(a: int, b: int) -> int {
    if a < b {
        b
    } else {
        a
    }
}

/// The mesh after `data` arrives at time `now`: it changes only if `data` is a
/// packet, and then only in the memory of what was seen and in the time.
pub open spec fn after_incoming(m: MeshView, data: Seq<u8>, now: int) -> MeshView {
    match decoded(data) {
        Ok(p) => MeshView {
            seen: arrived(m.seen, p.msg_id, now),
            clock: later_of(m.clock, now),
            ..m
        },
        Err(_) => m,
    }
}

/// What is done about `data` that arrives on link `from` at time `now`: a
/// packet that was not seen before is shown, and forwarded to every other link
/// if it has hops left. Anything else is dropped silently.
pub open spec fn incoming(m: MeshView, from: LinkId, data: Seq<u8>, now: int) -> DeliveryView {
    match decoded(data) {
        Ok(p) => if is_known(m.seen, p.msg_id, now) {
            nothing()
        } else {
            DeliveryView {
                ui: Some(UiView::Message { sender: p.sender, text: p.payload }),
                flood: match next_hop(p) {
                    Some(q) => flooded(m.links, q, Some(from)),
                    None => None,
                },
            }
        },
        Err(_) => nothing(),
    }
}

/// The mesh after it floods a packet of its own at time `now`.
pub open spec fn after_own(m: MeshView, p: PacketView, now: int) -> MeshView {
    MeshView { seen: recorded(m.seen, p.msg_id, now), clock: later_of(m.clock, now), ..m }
}

/// A message that this node authors.
pub open spec fn authored(m: MeshView, id: Seq<u8>, text: Seq<char>) -> PacketView {
    PacketView { msg_id: id, ttl: DEFAULT_TTL, sender: m.nickname, payload: text }
}

// ---------------------------------------------------------------------------
// The clock
// ---------------------------------------------------------------------------

/// A point on the monotonic clock, `std::time::Instant`.
#[verifier::external_type_specification]
#[verifier::external_body]
pub struct ExInstant(std::time::Instant);

/// `std::time::Instant::now`. Nothing is claimed of the time it returns.
#[verifier::external_body]
fn clock_now() -> (t: Instant) {
    Instant::now()
}

/// `std::time::Instant::elapsed`, in nanoseconds. Nothing is claimed of the
/// time that has passed; that a time is the outcome of such a call is what
/// [`clock_reads`] tells.
#[verifier::external_body]
fn nanos_since(start: &Instant) -> (n: u128) {
    start.elapsed().as_nanos()
}

/// Whether the clock, read in nanoseconds since `start`, showed `t`. Nothing
/// but reading it tells so of a time.
pub closed spec fn clock_reads(start: Instant, t: int) -> bool {
    exists|n: u128| #[trigger] call_ensures(nanos_since, (&start,), n) && n == t
}

/// Whether `now` is the time by which a node goes: what its clock shows, and
/// never less than a time by which it has gone before.
pub open spec fn told(m: MeshView, now: int) -> bool {
    exists|t: int| #[trigger] clock_reads(m.clock_start, t) && now == later_of(m.clock, t)
}

// ---------------------------------------------------------------------------
// The mesh
// ---------------------------------------------------------------------------

/// The links but for an excluded one.
fn links_except(links: &Vec<LinkId>, exclude: Option<LinkId>) -> (r: Vec<LinkId>)
    ensures
        r@ == except(links@, exclude),
{
    let ghost keep = |id: LinkId| Some(id) != exclude;
    let mut r: Vec<LinkId> = Vec::new();
    let mut i: usize = 0;
    proof {
        reveal(Seq::filter);
        assert(links@.take(0) =~= Seq::empty());
    }
    while i < links.len()
        invariant
            i <= links.len(),
            keep == (|id: LinkId| Some(id) != exclude),
            r@ == links@.take(i as int).filter(keep),
        decreases links.len() - i,
    {
        let id: LinkId = links[i];
        let skip = match exclude {
            Some(x) => x == id,
            None => false,
        };
        proof {
            reveal(Seq::filter);
            assert(links@.take(i + 1).drop_last() =~= links@.take(i as int));
            assert(links@.take(i + 1).last() == id);
        }
        if !skip {
            r.push(id);
        }
        i += 1;
    }
    assert(links@.take(i as int) =~= links@);
    r
}

impl Mesh {
    /// A node without links that has seen nothing. Its clock starts now.
    pub fn new(nickname: String) -> (m: Mesh)
        ensures
            m@ == (MeshView {
                links: Seq::empty(),
                seen: SeenView { known: Set::empty(), order: Seq::empty() },
                next_link_id: 0,
                nickname: nickname@,
                clock_start: m@.clock_start,
                clock: 0,
            }),
            mesh_inv(m@),
            tidy(m@.seen),
    {
        assert(ids(Seq::empty()) =~= Set::<Seq<u8>>::empty());
        Mesh {
            links: Vec::new(),
            seen: SeenCache::new(),
            next_link_id: 0,
            nickname,
            epoch: clock_now(),
            latest: 0,
        }
    }

    /// Reads the clock of this node.
    fn read_clock(&self) -> (now: u128)
        ensures
            told(self@, now as int),
    {
        let t: u128 = nanos_since(&self.epoch);
        assert(call_ensures(nanos_since, (&self.epoch,), t));
        assert(clock_reads(self@.clock_start, t as int));
        if t < self.latest {
            self.latest
        } else {
            t
        }
    }

    /// Notes that a packet was met or made at a time.
    fn note_time(&mut self, now: u128)
        ensures
            final(self)@ == (MeshView { clock: later_of(old(self)@.clock, now as int), ..old(self)@ }),
    {
        if self.latest < now {
            self.latest = now;
        }
    }

    /// Whether there is an id left for a new link.
    pub fn can_register(&self) -> (r: bool)
        ensures
            r == (self@.next_link_id < LinkId::MAX),
    {
        self.next_link_id < LinkId::MAX
    }

    /// Registers a new link, of either role.
    pub fn register_link(&mut self) -> (r: (LinkHandle, UiEvent))
        requires
            mesh_inv(old(self)@),
            old(self)@.next_link_id < LinkId::MAX,
        ensures
            final(self)@ == with_link(old(self)@),
            mesh_inv(final(self)@),
            r.0.id == old(self)@.next_link_id,
            r.1@ == UiView::LinkCountChanged(final(self)@.links.len()),
    {
        let id: LinkId = self.next_link_id;
        self.next_link_id = id + 1;
        self.links.push(id);
        (LinkHandle { id }, UiEvent::LinkCountChanged(self.links.len()))
    }

    /// Removes a link, if it is there.
    pub fn unregister_link(&mut self, id: LinkId) -> (ui: UiEvent)
        requires
            mesh_inv(old(self)@),
        ensures
            final(self)@ == without_link(old(self)@, id),
            mesh_inv(final(self)@),
            ui@ == UiView::LinkCountChanged(final(self)@.links.len()),
    {
        proof {
            lemma_except(self@.links, Some(id));
        }
        self.links = links_except(&self.links, Some(id));
        proof {
            assert forall|i: int| 0 <= i < self@.links.len() implies #[trigger] self@.links[i]
                < self@.next_link_id by {
                assert(self@.links.contains(self@.links[i]));
            }
        }
        UiEvent::LinkCountChanged(self.links.len())
    }

    /// Handles raw bytes that arrive on a link, at the time that the clock of
    /// this node shows: decode, de-dup, local display and re-flooding to every
    /// *other* link.
    pub fn handle_incoming(&mut self, from_link: LinkId, data: &[u8]) -> (d: Delivery)
        requires
            mesh_inv(old(self)@),
        ensures
            mesh_inv(final(self)@),
            exists|now: int|
                0 <= now <= u128::MAX && told(old(self)@, now) && d@ == #[trigger] incoming(
                    old(self)@,
                    from_link,
                    data@,
                    now,
                ) && final(self)@ == after_incoming(old(self)@, data@, now),
    {
        let now: u128 = self.read_clock();
        let d = self.handle_incoming_at(from_link, data, now);
        assert(d@ == incoming(old(self)@, from_link, data@, now as int));
        d
    }

    /// Handles raw bytes that arrive on a link `now` nanoseconds into the life
    /// of this node.
    pub fn handle_incoming_at(&mut self, from_link: LinkId, data: &[u8], now: u128) -> (d: Delivery)
        requires
            mesh_inv(old(self)@),
        ensures
            mesh_inv(final(self)@),
            d@ == incoming(old(self)@, from_link, data@, now as int),
            final(self)@ == after_incoming(old(self)@, data@, now as int),
    {
        let packet = match Packet::decode(data) {
            Ok(p) => p,
            Err(_) => return Delivery { ui: None, flood: None },
        };
        self.note_time(now);
        if !self.seen.note_arrival(packet.msg_id, now) {
            return Delivery { ui: None, flood: None };
        }
        let ui = UiEvent::Message {
            sender: packet.sender.clone(),
            text: packet.payload.clone(),
        };
        let flood = match packet.with_decremented_ttl() {
            Some(forwarded) => self.broadcast(&forwarded, Some(from_link)),
            None => None,
        };
        Delivery { ui: Some(ui), flood }
    }

    /// Floods a message authored locally, under an id that is drawn for it. It
    /// counts as seen at once, as of the time that the clock of this node
    /// shows, so that it is not processed again if it loops back to us.
    pub fn send_local(&mut self, text: &str) -> (flood: Option<Flood>)
        requires
            mesh_inv(old(self)@),
        ensures
            mesh_inv(final(self)@),
            exists|id: Seq<u8>, now: int|
                drawn(id) && is_random_uuid(id) && 0 <= now <= u128::MAX && told(old(self)@, now)
                    && final(self)@ == #[trigger] after_own(
                    old(self)@,
                    authored(old(self)@, id, text@),
                    now,
                )
                    && flood_view(flood) == flooded(
                    old(self)@.links,
                    authored(old(self)@, id, text@),
                    None,
                ),
    {
        let packet = Packet::new(self.nickname.as_str(), text);
        let now: u128 = self.read_clock();
        let flood = self.send_packet_at(&packet, now);
        assert(packet@ == authored(old(self)@, packet@.msg_id, text@));
        assert(final(self)@ == after_own(
            old(self)@,
            authored(old(self)@, packet@.msg_id, text@),
            now as int,
        ));
        flood
    }

    /// Floods a packet of our own `now` nanoseconds into the life of this
    /// node.
    pub fn send_packet_at(&mut self, packet: &Packet, now: u128) -> (flood: Option<Flood>)
        requires
            mesh_inv(old(self)@),
        ensures
            mesh_inv(final(self)@),
            final(self)@ == after_own(old(self)@, packet@, now as int),
            flood_view(flood) == flooded(old(self)@.links, packet@, None),
    {
        self.note_time(now);
        self.seen.note_own(packet.msg_id, now);
        self.broadcast(packet, None)
    }

    /// The flood of a packet over all links but an excluded one. A packet that
    /// is too long is dropped.
    fn broadcast(&self, packet: &Packet, exclude: Option<LinkId>) -> (flood: Option<Flood>)
        ensures
            flood_view(flood) == flooded(self@.links, packet@, exclude),
    {
        match packet.encode() {
            Ok(data) => Some(Flood { data, to: links_except(&self.links, exclude) }),
            Err(_) => None,
        }
    }

    /// The nickname under which messages are authored here.
    pub fn nickname(&self) -> (name: &str)
        ensures
            name@ == self@.nickname,
    {
        self.nickname.as_str()
    }

    /// The number of links.
    pub fn link_count(&self) -> (n: usize)
        ensures
            n == self@.links.len(),
    {
        self.links.len()
    }
}

/// Leaving a link out keeps the order of the others and their number, and
/// leaves out nothing else.
proof fn lemma_except(links: Seq<LinkId>, exclude: Option<LinkId>)
    requires
        forall|i: int, j: int| 0 <= i < j < links.len() ==> links[i] < links[j],
    ensures
        forall|i: int, j: int|
            0 <= i < j < except(links, exclude).len() ==> except(links, exclude)[i] < except(
                links,
                exclude,
            )[j],
        forall|id: LinkId| #[trigger]
            except(links, exclude).contains(id) <==> links.contains(id) && Some(id) != exclude,
        except(links, exclude).len() == links.len() - if exclude is Some && links.contains(
            exclude->Some_0,
        ) {
            1int
        } else {
            0
        },
    decreases links.len(),
{
    reveal(Seq::filter);
    let r = except(links, exclude);
    if links.len() > 0 {
        let front = links.drop_last();
        let s = except(front, exclude);
        lemma_except(front, exclude);
        let last = links.last();
        assert forall|id: LinkId| #[trigger] links.contains(id) <==> front.contains(id) || id
            == last by {
            if links.contains(id) && id != last {
                let i = choose|i: int| 0 <= i < links.len() && links[i] == id;
                assert(front[i] == id);
            }
            if front.contains(id) {
                let i = choose|i: int| 0 <= i < front.len() && front[i] == id;
                assert(links[i] == id);
            }
            assert(links[links.len() - 1] == last);
        }
        assert(!front.contains(last));
        if Some(last) != exclude {
            assert(r == s.push(last));
            assert forall|id: LinkId| #[trigger] r.contains(id) <==> s.contains(id) || id == last by {
                if s.contains(id) {
                    let i = choose|i: int| 0 <= i < s.len() && s[i] == id;
                    assert(r[i] == id);
                }
                assert(r[r.len() - 1] == last);
            }
            assert forall|i: int, j: int| 0 <= i < j < r.len() implies r[i] < r[j] by {
                if j == r.len() - 1 {
                    assert(s.contains(s[i]));
                    assert(front.contains(s[i]));
                }
            }
        } else {
            assert(r == s);
        }
    }
}

// ---------------------------------------------------------------------------
// Laws
// ---------------------------------------------------------------------------

/// Something that happens to a node.
pub enum MeshOp {
    Register,
    Unregister(LinkId),
    Incoming { from: LinkId, data: Seq<u8>, at: int },
    Own { packet: PacketView, at: int },
}

/// The mesh after one happening. Without ids left, no link is registered.
pub open spec fn stepped(m: MeshView, op: MeshOp) -> MeshView {
    match op {
        MeshOp::Register => if m.next_link_id < LinkId::MAX {
            with_link(m)
        } else {
            m
        },
        MeshOp::Unregister(id) => without_link(m, id),
        MeshOp::Incoming { from, data, at } => after_incoming(m, data, at),
        MeshOp::Own { packet, at } => after_own(m, packet, at),
    }
}

/// The mesh after a run of happenings.
pub open spec fn stepped_all(m: MeshView, ops: Seq<MeshOp>) -> MeshView
    decreases ops.len(),
{
    if ops.len() == 0 {
        m
    } else {
        stepped(stepped_all(m, ops.drop_last()), ops.last())
    }
}

/// The time of a happening that matters to the memory of seen messages.
pub open spec fn op_within(op: MeshOp, start: int, span: int) -> bool {
    match op {
        MeshOp::Incoming { from, data, at } => age(start, at) <= span,
        MeshOp::Own { packet, at } => age(start, at) <= span,
        _ => true,
    }
}

/// Whether a happening is a message of our own with the given id.
pub open spec fn op_authors(op: MeshOp, id: Seq<u8>) -> bool {
    op matches MeshOp::Own { packet, at } && packet.msg_id == id
}

/// What a happening does to the memory of seen messages, if anything.
pub open spec fn op_on_seen(op: MeshOp) -> Option<SeenOp> {
    match op {
        MeshOp::Incoming { from, data, at } => match decoded(data) {
            Ok(p) => Some(SeenOp { id: p.msg_id, at, local: false }),
            Err(_) => None,
        },
        MeshOp::Own { packet, at } => Some(SeenOp { id: packet.msg_id, at, local: true }),
        _ => None,
    }
}

/// Whether a happening makes a new entry in the memory of seen messages: a
/// packet with an id that is not known does, and so does every message of our
/// own.
pub open spec fn op_adds(m: MeshView, op: MeshOp) -> bool {
    op_on_seen(op) matches Some(o) && adds_entry(m.seen, o)
}

/// How many of a run of happenings make a new entry.
pub open spec fn new_ids(m: MeshView, ops: Seq<MeshOp>) -> nat
    decreases ops.len(),
{
    if ops.len() == 0 {
        0
    } else {
        new_ids(m, ops.drop_last()) + if op_adds(stepped_all(m, ops.drop_last()), ops.last()) {
            1nat
        } else {
            0
        }
    }
}

/// Whether a run of happenings makes a new entry for `id`: the id came up as
/// new, or we made it.
pub open spec fn comes_up(m: MeshView, ops: Seq<MeshOp>, id: Seq<u8>) -> bool
    decreases ops.len(),
{
    ops.len() > 0 && (comes_up(m, ops.drop_last(), id) || (op_adds(
        stepped_all(m, ops.drop_last()),
        ops.last(),
    ) && op_on_seen(ops.last())->Some_0.id == id))
}

/// Whether a happening brings `id` to a node that does not know it at time
/// `at`: a packet with that id is shown, or a message of our own is given it.
pub open spec fn introduces(m: MeshView, op: MeshOp, id: Seq<u8>, at: int) -> bool {
    op_on_seen(op) matches Some(o) && o.id == id && o.at == at && !is_known(m.seen, id, at)
}

/// Whether `data` that arrives on link `from` at time `now` is taken for a new
/// packet: it is shown, and forwarded to every other link if it has hops left.
pub open spec fn taken_as_new(m: MeshView, from: LinkId, data: Seq<u8>, now: int) -> bool {
    decoded(data) matches Ok(p) && incoming(m, from, data, now) == (DeliveryView {
        ui: Some(UiView::Message { sender: p.sender, text: p.payload }),
        flood: match next_hop(p) {
            Some(q) => flooded(m.links, q, Some(from)),
            None => None,
        },
    })
}

/// The invariant of the mesh survives everything that can happen.
pub proof fn run_keeps_inv(m: MeshView, ops: Seq<MeshOp>)
    requires
        mesh_inv(m),
    ensures
        mesh_inv(stepped_all(m, ops)),
    decreases ops.len(),
{
    if ops.len() > 0 {
        run_keeps_inv(m, ops.drop_last());
        let w = stepped_all(m, ops.drop_last());
        match ops.last() {
            MeshOp::Register => {},
            MeshOp::Unregister(id) => {
                lemma_except(w.links, Some(id));
                let r = without_link(w, id);
                assert forall|i: int| 0 <= i < r.links.len() implies #[trigger] r.links[i]
                    < r.next_link_id by {
                    assert(r.links.contains(r.links[i]));
                }
            },
            MeshOp::Incoming { from, data, at } => {
                if let Ok(p) = decoded(data) {
                    arrival_keeps_inv(w.seen, p.msg_id, at);
                }
            },
            MeshOp::Own { packet, at } => {
                recording_keeps_inv(w.seen, packet.msg_id, at);
            },
        }
    }
}

/// Whatever happens to a node, it keeps its name, and the clock that dates what
/// it has seen is never restarted.
pub proof fn run_keeps_name_and_clock(m: MeshView, ops: Seq<MeshOp>)
    ensures
        stepped_all(m, ops).nickname == m.nickname,
        stepped_all(m, ops).clock_start == m.clock_start,
    decreases ops.len(),
{
    if ops.len() > 0 {
        run_keeps_name_and_clock(m, ops.drop_last());
    }
}

/// A link id is given out once: the ids of the links present, and of all that
/// were there before, are below the next id, which never decreases.
pub proof fn link_ids_are_never_reused(m: MeshView, ops: Seq<MeshOp>)
    requires
        mesh_inv(m),
    ensures
        m.next_link_id <= stepped_all(m, ops).next_link_id,
        forall|id: LinkId| #[trigger]
            m.links.contains(id) ==> id < stepped_all(m, ops).next_link_id,
        forall|id: LinkId| #[trigger]
            stepped_all(m, ops).links.contains(id) ==> m.links.contains(id) || id
                >= m.next_link_id,
    decreases ops.len(),
{
    if ops.len() > 0 {
        let front = ops.drop_last();
        link_ids_are_never_reused(m, front);
        run_keeps_inv(m, front);
        let w = stepped_all(m, front);
        let r = stepped(w, ops.last());
        assert forall|id: LinkId| #[trigger] r.links.contains(id) implies m.links.contains(id) || id
            >= m.next_link_id by {
            match ops.last() {
                MeshOp::Unregister(gone) => {
                    lemma_except(w.links, Some(gone));
                    assert(w.links.contains(id));
                },
                MeshOp::Register => {
                    if !w.links.contains(id) {
                        let i = choose|i: int| 0 <= i < r.links.len() && r.links[i] == id;
                        if i < w.links.len() {
                            assert(w.links[i] == id);
                        }
                    }
                },
                _ => {
                    assert(w.links.contains(id));
                },
            }
        }
    }
}

/// Removing a link that was just registered restores the links.
pub proof fn unregister_undoes_register(m: MeshView)
    requires
        mesh_inv(m),
        m.next_link_id < LinkId::MAX,
    ensures
        without_link(with_link(m), m.next_link_id as LinkId).links == m.links,
        with_link(m).links.len() == m.links.len() + 1,
        !m.links.contains(m.next_link_id as LinkId),
{
    let id = m.next_link_id as LinkId;
    let keep = |x: LinkId| Some(x) != Some(id);
    reveal(Seq::filter);
    assert(with_link(m).links.drop_last() =~= m.links);
    lemma_filter_all(m.links, keep);
}

proof fn lemma_filter_all(s: Seq<LinkId>, keep: spec_fn(LinkId) -> bool)
    requires
        forall|i: int| 0 <= i < s.len() ==> keep(#[trigger] s[i]),
    ensures
        s.filter(keep) == s,
    decreases s.len(),
{
    reveal(Seq::filter);
    if s.len() > 0 {
        lemma_filter_all(s.drop_last(), keep);
        assert(s.drop_last().push(s.last()) =~= s);
        assert(keep(s[s.len() - 1]));
    }
}

/// Registering adds one link, under an id that no link had, and keeps all the
/// links that were there. Nothing else about the node changes but the id that
/// comes next, and whatever is flooded from then on goes to the new link too.
pub proof fn registering_adds_one_link(m: MeshView, p: PacketView)
    requires
        mesh_inv(m),
        m.next_link_id < LinkId::MAX,
    ensures
        ({
            let id = m.next_link_id as LinkId;
            let r = with_link(m);
            &&& r.links.len() == m.links.len() + 1
            &&& !m.links.contains(id)
            &&& forall|other: LinkId| #[trigger]
                r.links.contains(other) <==> m.links.contains(other) || other == id
            &&& r.next_link_id == m.next_link_id + 1
            &&& r.seen == m.seen && r.nickname == m.nickname && r.clock_start == m.clock_start
                && r.clock == m.clock
            &&& encoded(p) is Ok ==> flooded(r.links, p, None) is Some && flooded(
                r.links,
                p,
                None,
            )->Some_0.to.contains(id)
        }),
{
    let id = m.next_link_id as LinkId;
    let r = with_link(m);
    assert forall|other: LinkId| #[trigger] r.links.contains(other) <==> m.links.contains(other)
        || other == id by {
        if m.links.contains(other) {
            let i = choose|i: int| 0 <= i < m.links.len() && m.links[i] == other;
            assert(r.links[i] == other);
        }
        assert(r.links[m.links.len() as int] == id);
        if r.links.contains(other) && other != id {
            let i = choose|i: int| 0 <= i < r.links.len() && r.links[i] == other;
            assert(m.links[i] == other);
        }
    }
    lemma_except(r.links, None);
}

/// After a link is removed it is gone, every other link is still there, and
/// removing it again changes nothing.
pub proof fn unregister_removes_one_link(m: MeshView, id: LinkId)
    requires
        mesh_inv(m),
    ensures
        !without_link(m, id).links.contains(id),
        forall|other: LinkId|
            other != id ==> #[trigger] without_link(m, id).links.contains(other)
                == m.links.contains(other),
        m.links.contains(id) ==> without_link(m, id).links.len() == m.links.len() - 1,
        !m.links.contains(id) ==> without_link(m, id).links.len() == m.links.len(),
        without_link(without_link(m, id), id) == without_link(m, id),
        without_link(m, id) == (MeshView { links: without_link(m, id).links, ..m }),
{
    lemma_except(m.links, Some(id));
    let r = without_link(m, id);
    let keep = |x: LinkId| Some(x) != Some(id);
    assert forall|i: int| 0 <= i < r.links.len() implies keep(#[trigger] r.links[i]) by {
        assert(r.links.contains(r.links[i]));
    }
    lemma_filter_all(r.links, keep);
}

/// A packet is forwarded to every link but the one it came from, once each,
/// and a message of our own to every link, once each.
pub proof fn flood_reaches_every_other_link(
    m: MeshView,
    from: LinkId,
    data: Seq<u8>,
    now: int,
    own: PacketView,
)
    requires
        mesh_inv(m),
    ensures
        incoming(m, from, data, now).flood matches Some(f) ==> {
            &&& forall|id: LinkId| #[trigger]
                f.to.contains(id) <==> m.links.contains(id) && id != from
            &&& forall|i: int, j: int| 0 <= i < j < f.to.len() ==> f.to[i] < f.to[j]
        },
        flooded(m.links, own, None) matches Some(f) ==> {
            &&& forall|id: LinkId| #[trigger] f.to.contains(id) <==> m.links.contains(id)
            &&& forall|i: int, j: int| 0 <= i < j < f.to.len() ==> f.to[i] < f.to[j]
        },
{
    lemma_except(m.links, Some(from));
    lemma_except(m.links, None);
}

/// What arrives is dropped, shown, or shown and passed on. Bytes that are no
/// packet are dropped and change nothing. A packet that is known is dropped.
/// A packet that is not known is shown, with its sender and its text, and
/// passed on to every link but the one it came from, unless it has no hops left
/// or is too long to be sent; what is passed on reads as the same packet with
/// one hop less. No packet changes the links.
pub proof fn packets_are_shown_and_passed_on(m: MeshView, from: LinkId, data: Seq<u8>, now: int)
    requires
        mesh_inv(m),
    ensures
        ({
            let d = incoming(m, from, data, now);
            let after = after_incoming(m, data, now);
            &&& decoded(data) is Err ==> d.ui is None && d.flood is None && after == m
            &&& decoded(data) matches Ok(p) ==> {
                &&& is_known(m.seen, p.msg_id, now) ==> d.ui is None && d.flood is None
                &&& !is_known(m.seen, p.msg_id, now) ==> d.ui == Some(
                    UiView::Message { sender: p.sender, text: p.payload },
                )
                &&& d.flood is Some <==> !is_known(m.seen, p.msg_id, now) && p.ttl > 0 && encoded(
                    p,
                ) is Ok
                &&& d.flood matches Some(f) ==> {
                    &&& decoded(f.data) == Ok::<PacketView, DecodeError>(
                        PacketView { ttl: (p.ttl - 1) as u8, ..p },
                    )
                    &&& forall|id: LinkId| #[trigger]
                        f.to.contains(id) <==> m.links.contains(id) && id != from
                    &&& f.to.len() == m.links.len() - if m.links.contains(from) {
                        1int
                    } else {
                        0
                    }
                }
            }
            &&& after.links == m.links && after.next_link_id == m.next_link_id && after.nickname
                == m.nickname && after.clock_start == m.clock_start
        }),
{
    if let Ok(p) = decoded(data) {
        lemma_except(m.links, Some(from));
        if p.ttl > 0 {
            let q = next_hop(p)->Some_0;
            forwarding_keeps_encodable(p);
            if encoded(q) is Ok {
                decode_inverts_encode(q, seq![]);
            }
        }
    }
}

/// A message that is typed goes to every link, once, unless it is too long to
/// be sent. What goes out reads as a packet with the id that was drawn for it,
/// seven hops, our name and the text. Making it changes no links.
pub proof fn own_message_goes_to_every_link(m: MeshView, id: Seq<u8>, text: Seq<char>, now: int)
    requires
        mesh_inv(m),
        id.len() == 16,
    ensures
        ({
            let p = PacketView { msg_id: id, ttl: 7, sender: m.nickname, payload: text };
            let after = after_own(m, authored(m, id, text), now);
            &&& flooded(m.links, authored(m, id, text), None) is Some <==> encoded(p) is Ok
            &&& flooded(m.links, authored(m, id, text), None) matches Some(f) ==> {
                &&& decoded(f.data) == Ok::<PacketView, DecodeError>(p)
                &&& forall|link: LinkId| #[trigger] f.to.contains(link) <==> m.links.contains(link)
                &&& f.to.len() == m.links.len()
            }
            &&& after.links == m.links && after.next_link_id == m.next_link_id && after.nickname
                == m.nickname && after.clock_start == m.clock_start
        }),
{
    let p = authored(m, id, text);
    lemma_except(m.links, None);
    if encoded(p) is Ok {
        decode_inverts_encode(p, seq![]);
    }
}

/// What a neighbour reads from a forwarded packet is the packet that arrived,
/// with one hop less. A packet without hops left is not forwarded, and every
/// other new packet is, unless it exceeds the size cap.
pub proof fn forwarded_packet_is_the_next_hop(m: MeshView, from: LinkId, data: Seq<u8>, now: int)
    requires
        decoded(data) is Ok,
        !is_known(m.seen, decoded(data)->Ok_0.msg_id, now),
    ensures
        incoming(m, from, data, now).flood is Some <==> decoded(data)->Ok_0.ttl > 0 && encoded(
            decoded(data)->Ok_0,
        ) is Ok,
        incoming(m, from, data, now).flood matches Some(f) ==> {
            &&& next_hop(decoded(data)->Ok_0) is Some
            &&& decoded(f.data) == Ok::<PacketView, DecodeError>(
                next_hop(decoded(data)->Ok_0)->Some_0,
            )
            &&& f.data.len() <= MAX_PACKET_SIZE
        },
{
    let p = decoded(data)->Ok_0;
    if p.ttl > 0 {
        let q = next_hop(p)->Some_0;
        forwarding_keeps_encodable(p);
        if encoded(q) is Ok {
            decode_inverts_encode(q, seq![]);
            encoded_packet_fits(q);
        }
    }
}

/// A message typed on one node shows up, with its author's name, on every
/// neighbour that has not seen its id, and that neighbour passes it on with
/// one hop less.
pub proof fn message_reaches_neighbour(
    author: MeshView,
    id: Seq<u8>,
    text: Seq<char>,
    reader: MeshView,
    from: LinkId,
    now: int,
)
    requires
        id.len() == 16,
        encoded(authored(author, id, text)) is Ok,
        !is_known(reader.seen, id, now),
    ensures
        flooded(author.links, authored(author, id, text), None) is Some,
        ({
            let p = authored(author, id, text);
            let f = flooded(author.links, p, None)->Some_0;
            let d = incoming(reader, from, f.data, now);
            &&& d.ui == Some(UiView::Message { sender: author.nickname, text })
            &&& next_hop(p) == Some(PacketView { ttl: (DEFAULT_TTL - 1) as u8, ..p })
            &&& d.flood == flooded(reader.links, next_hop(p)->Some_0, Some(from))
            &&& d.flood is Some
        }),
{
    let p = authored(author, id, text);
    decode_inverts_encode(p, seq![]);
    forwarding_keeps_encodable(p);
}

/// A node that a packet passes through: its state, the link the packet comes
/// in on, and the time of its arrival.
pub struct Relay {
    pub mesh: MeshView,
    pub from: LinkId,
    pub now: int,
}

/// The bytes that leave the last of a chain of nodes when `data` enters the
/// first, if any do.
pub open spec fn relayed(data: Seq<u8>, nodes: Seq<Relay>) -> Option<Seq<u8>>
    decreases nodes.len(),
{
    if nodes.len() == 0 {
        Some(data)
    } else {
        match relayed(data, nodes.drop_last()) {
            Some(bytes) => match incoming(
                nodes.last().mesh,
                nodes.last().from,
                bytes,
                nodes.last().now,
            ).flood {
                Some(f) => Some(f.data),
                None => None,
            },
            None => None,
        }
    }
}

/// Along a chain of nodes that have not seen it, a packet travels as many hops
/// as its ttl allows and no further. Whatever leaves the chain is the packet
/// with its ttl reduced by the length of the chain, and a further node that
/// has not seen it shows it.
pub proof fn packet_travels_along_a_chain(p: PacketView, nodes: Seq<Relay>, reader: Relay)
    requires
        p.msg_id.len() == 16,
        encoded(p) is Ok,
        forall|i: int|
            0 <= i < nodes.len() ==> !is_known(
                (#[trigger] nodes[i]).mesh.seen,
                p.msg_id,
                nodes[i].now,
            ),
        !is_known(reader.mesh.seen, p.msg_id, reader.now),
    ensures
        relayed(encoded(p)->Ok_0, nodes) is Some <==> nodes.len() <= p.ttl,
        relayed(encoded(p)->Ok_0, nodes) matches Some(bytes) ==> {
            &&& after_hops(p, nodes.len()) is Some
            &&& decoded(bytes) == Ok::<PacketView, DecodeError>(after_hops(p, nodes.len())->Some_0)
            &&& incoming(reader.mesh, reader.from, bytes, reader.now).ui == Some(
                UiView::Message { sender: p.sender, text: p.payload },
            )
        },
    decreases nodes.len(),
{
    ttl_bounds_hops(p, nodes.len());
    if nodes.len() == 0 {
        decode_inverts_encode(p, seq![]);
    } else {
        let front = nodes.drop_last();
        let last = nodes[nodes.len() - 1];
        assert forall|i: int| 0 <= i < front.len() implies !is_known(
            (#[trigger] front[i]).mesh.seen,
            p.msg_id,
            front[i].now,
        ) by {
            assert(front[i] == nodes[i]);
        }
        packet_travels_along_a_chain(p, front, last);
        ttl_bounds_hops(p, front.len());
        if let Some(bytes) = relayed(encoded(p)->Ok_0, front) {
            let q = after_hops(p, front.len())->Some_0;
            assert(encoded(q) is Ok);
            forwarded_packet_is_the_next_hop(last.mesh, last.from, bytes, last.now);
        }
    }
}

/// A message typed on one node is re-flooded over at most [`DEFAULT_TTL`]
/// hops: the packet that has made that many has none left.
pub proof fn authored_message_stops(author: MeshView, id: Seq<u8>, text: Seq<char>)
    ensures
        after_hops(authored(author, id, text), DEFAULT_TTL as nat) == Some(
            PacketView { ttl: 0, ..authored(author, id, text) },
        ),
        after_hops(authored(author, id, text), (DEFAULT_TTL + 1) as nat) is None,
{
    ttl_bounds_hops(authored(author, id, text), DEFAULT_TTL as nat);
    ttl_bounds_hops(authored(author, id, text), (DEFAULT_TTL + 1) as nat);
}

/// What a run of happenings on the mesh does to the memory of seen messages.
spec fn seen_ops(ops: Seq<MeshOp>) -> Seq<SeenOp>
    decreases ops.len(),
{
    if ops.len() == 0 {
        seq![]
    } else {
        match op_on_seen(ops.last()) {
            Some(o) => seen_ops(ops.drop_last()).push(o),
            None => seen_ops(ops.drop_last()),
        }
    }
}

proof fn lemma_seen_run(m: MeshView, ops: Seq<MeshOp>, id: Seq<u8>)
    ensures
        stepped_all(m, ops).seen == applied_all(m.seen, seen_ops(ops)),
        new_ids(m, ops) == entries_added(m.seen, seen_ops(ops)),
        comes_up(m, ops, id) == adds_id(m.seen, seen_ops(ops), id),
    decreases ops.len(),
{
    if ops.len() > 0 {
        let front = ops.drop_last();
        lemma_seen_run(m, front, id);
        if op_on_seen(ops.last()) is Some {
            assert(seen_ops(ops).drop_last() =~= seen_ops(front));
        }
    }
}

proof fn lemma_seen_ops(ops: Seq<MeshOp>, id: Seq<u8>, start: int)
    requires
        forall|k: int| 0 <= k < ops.len() ==> op_within(#[trigger] ops[k], start, SEEN_TTL as int),
        forall|k: int| 0 <= k < ops.len() ==> !op_authors(#[trigger] ops[k], id),
    ensures
        forall|k: int|
            0 <= k < seen_ops(ops).len() ==> age(start, (#[trigger] seen_ops(ops)[k]).at)
                <= SEEN_TTL,
        forall|k: int|
            0 <= k < seen_ops(ops).len() ==> (#[trigger] seen_ops(ops)[k]).local
                ==> seen_ops(ops)[k].id != id,
    decreases ops.len(),
{
    if ops.len() > 0 {
        let front = ops.drop_last();
        assert forall|k: int| 0 <= k < front.len() implies op_within(
            #[trigger] front[k],
            start,
            SEEN_TTL as int,
        ) && !op_authors(front[k], id) by {
            assert(front[k] == ops[k]);
        }
        lemma_seen_ops(front, id, start);
        let last = ops[ops.len() - 1];
        assert(op_within(last, start, SEEN_TTL as int) && !op_authors(last, id));
        assert forall|k: int| 0 <= k < seen_ops(ops).len() implies age(
            start,
            (#[trigger] seen_ops(ops)[k]).at,
        ) <= SEEN_TTL && (seen_ops(ops)[k].local ==> seen_ops(ops)[k].id != id) by {
            if k < seen_ops(front).len() {
                assert(seen_ops(ops)[k] == seen_ops(front)[k]);
            }
        }
    }
}

/// The memory of a fresh node is tidy, and stays so through everything that
/// can happen, as long as the ids of our own messages are new to it.
pub proof fn memory_of_a_run_is_tidy(m: MeshView, ops: Seq<MeshOp>)
    requires
        tidy(m.seen),
        forall|k: int|
            0 <= k < ops.len() ==> (#[trigger] ops[k] matches MeshOp::Own { packet, at }
                ==> !is_known(stepped_all(m, ops.take(k)).seen, packet.msg_id, at)),
    ensures
        tidy(stepped_all(m, ops).seen),
        tidy(SeenView { known: Set::empty(), order: Seq::empty() }),
    decreases ops.len(),
{
    assert(ids(Seq::empty()) =~= Set::<Seq<u8>>::empty());
    if ops.len() > 0 {
        let front = ops.drop_last();
        let n = ops.len() - 1;
        assert(ops.take(n) =~= front);
        assert forall|k: int| 0 <= k < front.len() implies (#[trigger] front[k] matches MeshOp::Own {
            packet,
            at,
        } ==> !is_known(stepped_all(m, front.take(k)).seen, packet.msg_id, at)) by {
            assert(front[k] == ops[k]);
            assert(front.take(k) =~= ops.take(k));
        }
        memory_of_a_run_is_tidy(m, front);
        let w = stepped_all(m, front);
        match ops[n] {
            MeshOp::Incoming { from, data, at } => {
                if let Ok(p) = decoded(data) {
                    memory_stays_tidy(w.seen, SeenOp { id: p.msg_id, at, local: false });
                }
            },
            MeshOp::Own { packet, at } => {
                memory_stays_tidy(w.seen, SeenOp { id: packet.msg_id, at, local: true });
            },
            _ => {},
        }
    }
}

/// De-duplication: once a packet with some id has been shown, every further
/// packet with that id is dropped, neither shown nor forwarded, whatever link
/// it comes from and whatever happens in between, as long as that is within
/// [`SEEN_TTL`] and brings fewer than [`SEEN_CAPACITY`] new ids. Links that
/// come and go, malformed data and repeats, of this packet or of others, may
/// be as many as they like.
pub proof fn repeat_is_dropped(
    m: MeshView,
    from: LinkId,
    data: Seq<u8>,
    now: int,
    ops: Seq<MeshOp>,
    later_from: LinkId,
    later_data: Seq<u8>,
    later: int,
)
    requires
        tidy(m.seen),
        decoded(data) is Ok,
        !is_known(m.seen, decoded(data)->Ok_0.msg_id, now),
        new_ids(after_incoming(m, data, now), ops) < SEEN_CAPACITY,
        forall|k: int| 0 <= k < ops.len() ==> op_within(#[trigger] ops[k], now, SEEN_TTL as int),
        forall|k: int|
            0 <= k < ops.len() ==> !op_authors(#[trigger] ops[k], decoded(data)->Ok_0.msg_id),
        age(now, later) <= SEEN_TTL,
        decoded(later_data) is Ok,
        decoded(later_data)->Ok_0.msg_id == decoded(data)->Ok_0.msg_id,
    ensures
        incoming(
            stepped_all(after_incoming(m, data, now), ops),
            later_from,
            later_data,
            later,
        ) == nothing(),
{
    let id = decoded(data)->Ok_0.msg_id;
    let w = after_incoming(m, data, now);
    new_id_has_sole_entry(m.seen, SeenOp { id, at: now, local: false });
    lemma_seen_run(w, ops, id);
    lemma_seen_ops(ops, id, now);
    id_stays_known(w.seen, w.seen.order.len() - 1, seen_ops(ops), later);
}

/// A message of our own that loops back to us is dropped, under the same
/// conditions as a repeat.
pub proof fn own_message_is_dropped(
    m: MeshView,
    own: PacketView,
    now: int,
    ops: Seq<MeshOp>,
    later_from: LinkId,
    later_data: Seq<u8>,
    later: int,
)
    requires
        tidy(m.seen),
        !is_known(m.seen, own.msg_id, now),
        new_ids(after_own(m, own, now), ops) < SEEN_CAPACITY,
        forall|k: int| 0 <= k < ops.len() ==> op_within(#[trigger] ops[k], now, SEEN_TTL as int),
        forall|k: int| 0 <= k < ops.len() ==> !op_authors(#[trigger] ops[k], own.msg_id),
        age(now, later) <= SEEN_TTL,
        decoded(later_data) is Ok,
        decoded(later_data)->Ok_0.msg_id == own.msg_id,
    ensures
        incoming(stepped_all(after_own(m, own, now), ops), later_from, later_data, later)
            == nothing(),
{
    let w = after_own(m, own, now);
    new_id_has_sole_entry(m.seen, SeenOp { id: own.msg_id, at: now, local: true });
    lemma_seen_run(w, ops, own.msg_id);
    lemma_seen_ops(ops, own.msg_id, now);
    id_stays_known(w.seen, w.seen.order.len() - 1, seen_ops(ops), later);
}

/// A message is forgotten by count: after [`SEEN_CAPACITY`] or more new ids, a
/// packet with its id is taken for a new one, at whatever time it comes,
/// unless the id came up again in between.
pub proof fn crowded_out_packet_is_new_again(
    m: MeshView,
    first: MeshOp,
    id: Seq<u8>,
    now: int,
    ops: Seq<MeshOp>,
    later_from: LinkId,
    later_data: Seq<u8>,
    later: int,
)
    requires
        tidy(m.seen),
        introduces(m, first, id, now),
        new_ids(stepped(m, first), ops) >= SEEN_CAPACITY,
        !comes_up(stepped(m, first), ops, id),
        decoded(later_data) is Ok,
        decoded(later_data)->Ok_0.msg_id == id,
    ensures
        taken_as_new(stepped_all(stepped(m, first), ops), later_from, later_data, later),
{
    let w = stepped(m, first);
    new_id_has_sole_entry(m.seen, op_on_seen(first)->Some_0);
    lemma_seen_run(w, ops, id);
    id_is_crowded_out(w.seen, w.seen.order.len() - 1, seen_ops(ops), later);
}

/// A message is forgotten by age: more than [`SEEN_TTL`] after it was first
/// met, a packet with its id is taken for a new one, whatever repeats came in
/// between, unless the id came up again as new. The clock has not stepped back
/// by the time of the first meeting.
pub proof fn stale_packet_is_new_again(
    m: MeshView,
    first: MeshOp,
    id: Seq<u8>,
    now: int,
    ops: Seq<MeshOp>,
    later_from: LinkId,
    later_data: Seq<u8>,
    later: int,
)
    requires
        tidy(m.seen),
        forall|i: int| 0 <= i < m.seen.order.len() ==> (#[trigger] m.seen.order[i]).at <= now,
        introduces(m, first, id, now),
        !comes_up(stepped(m, first), ops, id),
        age(now, later) > SEEN_TTL,
        decoded(later_data) is Ok,
        decoded(later_data)->Ok_0.msg_id == id,
    ensures
        taken_as_new(stepped_all(stepped(m, first), ops), later_from, later_data, later),
{
    let w = stepped(m, first);
    new_id_has_sole_entry(m.seen, op_on_seen(first)->Some_0);
    lemma_seen_run(w, ops, id);
    id_grows_stale(w.seen, w.seen.order.len() - 1, seen_ops(ops), later);
}

/// The age of a message runs from its first meeting, and repeats do not
/// refresh it: as long as fewer than [`SEEN_CAPACITY`] new ids came after it,
/// and all within [`SEEN_TTL`] of that meeting, a packet with its id is
/// dropped up to [`SEEN_TTL`] after the meeting and taken for a new one from
/// then on.
pub proof fn repeats_do_not_refresh(
    m: MeshView,
    first: MeshOp,
    id: Seq<u8>,
    now: int,
    ops: Seq<MeshOp>,
    later_from: LinkId,
    later_data: Seq<u8>,
    later: int,
)
    requires
        tidy(m.seen),
        forall|i: int| 0 <= i < m.seen.order.len() ==> (#[trigger] m.seen.order[i]).at <= now,
        introduces(m, first, id, now),
        new_ids(stepped(m, first), ops) < SEEN_CAPACITY,
        forall|k: int| 0 <= k < ops.len() ==> op_within(#[trigger] ops[k], now, SEEN_TTL as int),
        forall|k: int| 0 <= k < ops.len() ==> !op_authors(#[trigger] ops[k], id),
        decoded(later_data) is Ok,
        decoded(later_data)->Ok_0.msg_id == id,
    ensures
        age(now, later) <= SEEN_TTL ==> incoming(
            stepped_all(stepped(m, first), ops),
            later_from,
            later_data,
            later,
        ) == nothing(),
        age(now, later) > SEEN_TTL ==> taken_as_new(
            stepped_all(stepped(m, first), ops),
            later_from,
            later_data,
            later,
        ),
{
    let w = stepped(m, first);
    new_id_has_sole_entry(m.seen, op_on_seen(first)->Some_0);
    lemma_seen_run(w, ops, id);
    lemma_seen_ops(ops, id, now);
    age_runs_from_the_first_meeting(w.seen, w.seen.order.len() - 1, seen_ops(ops), later);
}

/// A message that a node never met is shown: if its id was not known at some
/// point, and nothing since then carried it, a packet with that id is shown
/// when it comes, however much else has come and gone.
pub proof fn message_never_met_is_shown(
    m: MeshView,
    ops: Seq<MeshOp>,
    from: LinkId,
    data: Seq<u8>,
    now: int,
)
    requires
        decoded(data) is Ok,
        !m.seen.known.contains(decoded(data)->Ok_0.msg_id),
        forall|k: int|
            0 <= k < ops.len() ==> (op_on_seen(#[trigger] ops[k]) matches Some(o) ==> o.id
                != decoded(data)->Ok_0.msg_id),
    ensures
        incoming(stepped_all(m, ops), from, data, now).ui == Some(
            UiView::Message { sender: decoded(data)->Ok_0.sender, text: decoded(data)->Ok_0.payload },
        ),
        taken_as_new(stepped_all(m, ops), from, data, now),
{
    let id = decoded(data)->Ok_0.msg_id;
    lemma_seen_run(m, ops, id);
    lemma_seen_ids(ops, id);
    only_met_ids_are_known(m.seen, seen_ops(ops), id, now);
}

proof fn lemma_seen_ids(ops: Seq<MeshOp>, id: Seq<u8>)
    requires
        forall|k: int|
            0 <= k < ops.len() ==> (op_on_seen(#[trigger] ops[k]) matches Some(o) ==> o.id != id),
    ensures
        forall|k: int| 0 <= k < seen_ops(ops).len() ==> (#[trigger] seen_ops(ops)[k]).id != id,
    decreases ops.len(),
{
    if ops.len() > 0 {
        let front = ops.drop_last();
        assert forall|k: int| 0 <= k < front.len() implies (op_on_seen(#[trigger] front[k]) matches Some(
            o,
        ) ==> o.id != id) by {
            assert(front[k] == ops[k]);
        }
        lemma_seen_ids(front, id);
        let last = ops[ops.len() - 1];
        assert(op_on_seen(last) matches Some(o) ==> o.id != id);
        assert forall|k: int| 0 <= k < seen_ops(ops).len() implies (#[trigger] seen_ops(ops)[k]).id
            != id by {
            if k < seen_ops(front).len() {
                assert(seen_ops(ops)[k] == seen_ops(front)[k]);
            }
        }
    }
}

/// A reading of the clock is the outcome of reading it.
proof fn readings_come_from_the_clock(start: Instant, t: int) -> (n: u128)
    requires
        clock_reads(start, t),
    ensures
        call_ensures(nanos_since, (&start,), n),
        n == t,
{
    choose|n: u128| #[trigger] call_ensures(nanos_since, (&start,), n) && n == t
}

/// The time by which a node goes is what its clock shows, in nanoseconds since
/// its one start: it is a reading of that clock, unless it has already gone by
/// a later one, which then holds on. So it never goes back.
pub proof fn time_told_is_what_the_clock_shows(m: MeshView, now: int)
    requires
        told(m, now),
    ensures
        exists|t: int| #[trigger]
            clock_reads(m.clock_start, t) && t <= now && (now == t || (t < m.clock && now
                == m.clock)),
        now >= m.clock,
{
    let t = choose|t: int| #[trigger] clock_reads(m.clock_start, t) && now == later_of(m.clock, t);
    assert(clock_reads(m.clock_start, t));
}

/// Whether a happening is not dated before what the node has already met.
pub open spec fn op_in_step(m: MeshView, op: MeshOp) -> bool {
    op_on_seen(op) matches Some(o) ==> o.at >= m.clock
}

/// Whether every happening of a run is dated by a clock that does not go back,
/// as [`told`] has it.
pub open spec fn in_step(m: MeshView, ops: Seq<MeshOp>) -> bool
    decreases ops.len(),
{
    ops.len() == 0 || (in_step(m, ops.drop_last()) && op_in_step(
        stepped_all(m, ops.drop_last()),
        ops.last(),
    ))
}

/// The time of a node never goes back, is never behind what has happened, and
/// never runs ahead of it: after a run in step it is the time of the last
/// happening that was a packet, or still the time before the run.
pub proof fn time_is_that_of_the_last_packet(m: MeshView, ops: Seq<MeshOp>)
    requires
        in_step(m, ops),
    ensures
        stepped_all(m, ops).clock >= m.clock,
        forall|k: int|
            0 <= k < ops.len() ==> (op_on_seen(#[trigger] ops[k]) matches Some(o) ==> m.clock <= o.at
                <= stepped_all(m, ops).clock),
        stepped_all(m, ops).clock == m.clock || exists|k: int|
            0 <= k < ops.len() && (op_on_seen(#[trigger] ops[k]) matches Some(o) && o.at
                == stepped_all(m, ops).clock),
    decreases ops.len(),
{
    if ops.len() > 0 {
        let front = ops.drop_last();
        time_is_that_of_the_last_packet(m, front);
        let w = stepped_all(m, front);
        let r = stepped_all(m, ops);
        let n = ops.len() - 1;
        assert forall|k: int| 0 <= k < ops.len() implies (op_on_seen(#[trigger] ops[k]) matches Some(
            o,
        ) ==> m.clock <= o.at <= r.clock) by {
            if k < n {
                assert(front[k] == ops[k]);
            }
        }
        if op_on_seen(ops[n]) is Some {
            assert(op_on_seen(ops[n])->Some_0.at == r.clock);
        } else if w.clock != m.clock {
            let k = choose|k: int|
                0 <= k < front.len() && (op_on_seen(#[trigger] front[k]) matches Some(o) && o.at
                    == w.clock);
            assert(front[k] == ops[k]);
        }
    }
}

/// Nothing that a node remembers is dated after its time.
pub proof fn memory_is_not_dated_ahead(m: MeshView, ops: Seq<MeshOp>)
    requires
        forall|i: int| 0 <= i < m.seen.order.len() ==> (#[trigger] m.seen.order[i]).at <= m.clock,
    ensures
        forall|i: int|
            0 <= i < stepped_all(m, ops).seen.order.len() ==> (#[trigger] stepped_all(
                m,
                ops,
            ).seen.order[i]).at <= stepped_all(m, ops).clock,
    decreases ops.len(),
{
    if ops.len() > 0 {
        let front = ops.drop_last();
        memory_is_not_dated_ahead(m, front);
        let w = stepped_all(m, front);
        let r = stepped_all(m, ops);
        if let Some(o) = op_on_seen(ops.last()) {
            assert forall|i: int| 0 <= i < w.seen.order.len() implies (
            #[trigger] w.seen.order[i]).at <= r.clock by {}
            entries_are_not_dated_ahead(w.seen, o, r.clock);
            assert(r.seen == applied(w.seen, o));
        } else {
            assert(r.seen == w.seen && r.clock == w.clock);
        }
    }
}

proof fn lemma_seen_dates(ops: Seq<MeshOp>, id: Seq<u8>, low: int, high: int)
    requires
        forall|k: int|
            0 <= k < ops.len() ==> (op_on_seen(#[trigger] ops[k]) matches Some(o) ==> low <= o.at
                <= high),
        forall|k: int| 0 <= k < ops.len() ==> !op_authors(#[trigger] ops[k], id),
    ensures
        forall|k: int|
            0 <= k < seen_ops(ops).len() ==> low <= (#[trigger] seen_ops(ops)[k]).at <= high && (
            seen_ops(ops)[k].local ==> seen_ops(ops)[k].id != id),
    decreases ops.len(),
{
    if ops.len() > 0 {
        let front = ops.drop_last();
        assert forall|k: int| 0 <= k < front.len() implies (op_on_seen(#[trigger] front[k]) matches Some(
            o,
        ) ==> low <= o.at <= high) && !op_authors(front[k], id) by {
            assert(front[k] == ops[k]);
        }
        lemma_seen_dates(front, id, low, high);
        let last = ops[ops.len() - 1];
        assert((op_on_seen(last) matches Some(o) ==> low <= o.at <= high) && !op_authors(last, id));
        assert forall|k: int| 0 <= k < seen_ops(ops).len() implies low <= (#[trigger] seen_ops(
            ops,
        )[k]).at <= high && (seen_ops(ops)[k].local ==> seen_ops(ops)[k].id != id) by {
            if k < seen_ops(front).len() {
                assert(seen_ops(ops)[k] == seen_ops(front)[k]);
            }
        }
    }
}

/// Two calls, one id. Once a node has met or made a message, a packet with the
/// same id is dropped, neither shown nor forwarded, if no more than 300 seconds
/// of the node's clock lie between the two and fewer than 2048 new ids came in
/// between. All that is asked of the calls in between, and of the second one,
/// is that they go by the time that the clock tells.
pub proof fn second_copy_is_dropped(
    m: MeshView,
    first: MeshOp,
    id: Seq<u8>,
    now: int,
    ops: Seq<MeshOp>,
    later_from: LinkId,
    later_data: Seq<u8>,
    later: int,
)
    requires
        tidy(m.seen),
        introduces(m, first, id, now),
        now >= m.clock,
        in_step(stepped(m, first), ops),
        new_ids(stepped(m, first), ops) < 2048,
        forall|k: int| 0 <= k < ops.len() ==> !op_authors(#[trigger] ops[k], id),
        told(stepped_all(stepped(m, first), ops), later),
        later - now <= 300 * 1_000_000_000,
        decoded(later_data) is Ok,
        decoded(later_data)->Ok_0.msg_id == id,
    ensures
        ({
            let w = stepped_all(stepped(m, first), ops);
            let d = incoming(w, later_from, later_data, later);
            d.ui is None && d.flood is None
        }),
{
    let w = stepped(m, first);
    let end = stepped_all(w, ops);
    new_id_has_sole_entry(m.seen, op_on_seen(first)->Some_0);
    lemma_seen_run(w, ops, id);
    time_is_that_of_the_last_packet(w, ops);
    time_told_is_what_the_clock_shows(end, later);
    lemma_seen_dates(ops, id, now, later);
    id_stays_known(w.seen, w.seen.order.len() - 1, seen_ops(ops), later);
}

} // verus!

//! The build-placement pipeline: spawn a request at a click, validate it
//! against the placement zone, resolve it against the inventory, clear all
//! requests.

use vstd::prelude::*;

use crate::inventory::Inventory;
use crate::inventory::InventorySlot;
use crate::inventory::SlotModel;
use crate::items::drawn_item;
use crate::items::get_random_item;
use crate::items::ItemType;
use crate::rng::RandomDeterministic;
use crate::zone::placement_zone;
use crate::zone::Pos;
use crate::zone::Zone;

verus! {

/// Which inventory holders exist and which one the player has selected.
#[derive(Clone, Debug)]
pub struct Selection {
    pub inventories: Vec<u64>,
    pub selected_index: usize,
}

/// What a selection looks like in contracts.
#[verifier::ext_equal]
pub ghost struct SelectionModel {
    pub inventories: Seq<u64>,
    pub selected_index: int,
}

impl View for Selection {
    type V = SelectionModel;

    open spec fn view(&self) -> SelectionModel {
        SelectionModel {
            inventories: self.inventories@,
            selected_index: self.selected_index as int,
        }
    }
}

/// Why a build request was refused during validation.
#[derive(Clone, Copy, PartialEq, Eq, Structural, Debug)]
pub enum RefusedBuild {
    NotEnoughPlace,
}

/// A player's intent to place `item` out of `inventory` at `position`.
/// Lives for a single tick; `refused` is set during validation.
#[derive(Clone, Copy, Debug)]
pub struct BuildRequest {
    pub inventory: u64,
    pub item: u64,
    pub position: Pos,
    pub refused: Option<RefusedBuild>,
}

/// Why no request could be spawned for a click.
#[derive(Clone, Copy, PartialEq, Eq, Structural, Debug)]
pub enum SpawnError {
    /// The selected index names no entry of the selection.
    InvalidSelection,
    /// The selected entry is not a known inventory holder.
    UnknownInventory,
    /// The selected inventory has no item to place.
    EmptyInventory,
}

/// What the spawner did with this tick's input.
#[derive(Clone, Copy, PartialEq, Eq, Structural, Debug)]
pub enum ClickOutcome {
    /// The left button was not released this tick.
    NoClick,
    /// A request was spawned.
    Spawned,
    /// The click could not be turned into a request.
    Rejected(SpawnError),
}

/// Where a resolved item was placed: its world position and a depth used
/// only to order overlapping sprites.
#[derive(Clone, Copy, PartialEq, Eq, Structural, Debug)]
pub struct Placement {
    pub x: i64,
    pub y: i64,
    pub depth: u64,
}

/// Why a request could not be resolved.
#[derive(Clone, Copy, PartialEq, Eq, Structural, Debug)]
pub enum ResolveError {
    /// The request names an unknown inventory holder.
    UnknownInventory,
    /// The requested item is not in that inventory.
    MissingItem,
}

/// What the resolver did with one request.
#[derive(Clone, Copy, PartialEq, Eq, Structural, Debug)]
pub enum ResolveOutcome {
    /// The request carried a refusal tag and was left alone.
    Skipped,
    /// The request was malformed and was dropped.
    Failed(ResolveError),
    /// The item left the inventory and was placed; a freshly created
    /// entity of a newly drawn kind joined the back of the inventory.
    Placed { item: u64, placement: Placement, new_item: u64, new_item_type: ItemType },
}

/// What the whole game state looks like in contracts.
#[verifier::ext_equal]
pub ghost struct StateModel {
    pub selection: SelectionModel,
    pub slots: Seq<SlotModel>,
    pub requests: Seq<BuildRequest>,
    pub seed: u64,
    pub drawn: nat,
    pub shapes_amount: u64,
    pub next_entity: u64,
}

/// The game state the pipeline works on: the selection, every inventory,
/// this tick's requests, the random source, the counter that perturbs
/// depth, and the next fresh entity.
pub struct GameState {
    pub selection: Selection,
    pub slots: Vec<InventorySlot>,
    pub requests: Vec<BuildRequest>,
    pub rng: RandomDeterministic,
    pub shapes_amount: u64,
    pub next_entity: u64,
}

/// The models of a sequence of slots.
pub open spec fn slot_views(slots: Seq<InventorySlot>) -> Seq<SlotModel> {
    slots.map_values(|s: InventorySlot| s@)
}

impl View for GameState {
    type V = StateModel;

    open spec fn view(&self) -> StateModel {
        StateModel {
            selection: self.selection@,
            slots: slot_views(self.slots@),
            requests: self.requests@,
            seed: self.rng@.seed,
            drawn: self.rng@.drawn,
            shapes_amount: self.shapes_amount,
            next_entity: self.next_entity,
        }
    }
}

/// No two slots belong to the same holder.
pub open spec fn holders_distinct(slots: Seq<SlotModel>) -> bool {
    forall|i: int, j: int|
        0 <= i < slots.len() && 0 <= j < slots.len() && i != j ==> #[trigger] slots[i].holder
            != #[trigger] slots[j].holder
}

/// The holders of the slots, in order.
pub open spec fn holders_of(slots: Seq<SlotModel>) -> Seq<u64> {
    Seq::new(slots.len(), |i: int| slots[i].holder)
}

/// Whether some slot belongs to `h`.
pub open spec fn has_holder(slots: Seq<SlotModel>, h: u64) -> bool {
    exists|i: int| 0 <= i < slots.len() && #[trigger] slots[i].holder == h
}

/// The index of the slot that belongs to `h`; meaningful when
/// `has_holder(slots, h)` and the holders are distinct.
pub open spec fn holder_index(slots: Seq<SlotModel>, h: u64) -> int {
    choose|i: int| 0 <= i < slots.len() && #[trigger] slots[i].holder == h
}

/// With distinct holders, a slot of holder `h` at index `i` is the slot
/// `holder_index` names.
pub proof fn lemma_holder_index_unique(slots: Seq<SlotModel>, h: u64, i: int)
    requires
        holders_distinct(slots),
        0 <= i < slots.len(),
        slots[i].holder == h,
    ensures
        has_holder(slots, h),
        holder_index(slots, h) == i,
{
    assert(has_holder(slots, h));
    let j = holder_index(slots, h);
    assert(slots[j].holder == h);
    assert(j == i);
}

/// Every entity the state mentions was allocated below `next_entity`,
/// holders are distinct, and no inventory lists an item twice.
pub open spec fn state_wf(s: StateModel) -> bool {
    &&& holders_distinct(s.slots)
    &&& forall|i: int| 0 <= i < s.slots.len() ==> (#[trigger] s.slots[i]).holder < s.next_entity
    &&& forall|i: int| 0 <= i < s.slots.len() ==> (#[trigger] s.slots[i]).items.no_duplicates()
    &&& forall|i: int, k: int|
        0 <= i < s.slots.len() && 0 <= k < s.slots[i].items.len() ==> #[trigger] s.slots[i].items[k]
            < s.next_entity
}

/// What the spawner does with one tick's input: on a click-release it
/// turns the selected inventory's front item and the mouse position into
/// one new request, and otherwise changes nothing.
pub open spec fn spawn_request(s: StateModel, released: bool, position: Pos) -> (StateModel,
    ClickOutcome) {
    if !released {
        (s, ClickOutcome::NoClick)
    } else if !(0 <= s.selection.selected_index < s.selection.inventories.len()) {
        (s, ClickOutcome::Rejected(SpawnError::InvalidSelection))
    } else {
        let h = s.selection.inventories[s.selection.selected_index];
        if !has_holder(s.slots, h) {
            (s, ClickOutcome::Rejected(SpawnError::UnknownInventory))
        } else {
            let slot = s.slots[holder_index(s.slots, h)];
            if slot.items.len() == 0 {
                (s, ClickOutcome::Rejected(SpawnError::EmptyInventory))
            } else {
                let req = BuildRequest {
                    inventory: h,
                    item: slot.items[0],
                    position,
                    refused: None,
                };
                ((StateModel { requests: s.requests.push(req), ..s }), ClickOutcome::Spawned)
            }
        }
    }
}

/// What validation does with one request: a request whose position lies
/// outside the zone is tagged as refused for want of place; one inside the
/// zone is left untouched.
pub open spec fn validate_request(zone: Zone, r: BuildRequest) -> BuildRequest {
    if zone.contains_spec(r.position) {
        r
    } else {
        BuildRequest { refused: Some(RefusedBuild::NotEnoughPlace), ..r }
    }
}

/// Validation of a whole request list, requestwise.
pub open spec fn validate_requests(zone: Zone, rs: Seq<BuildRequest>) -> Seq<BuildRequest> {
    rs.map_values(|r: BuildRequest| validate_request(zone, r))
}

/// What the resolver does with one request. A tagged request is skipped; a
/// request whose inventory or item cannot be found fails; otherwise the
/// item leaves the inventory, is placed at the request's position with the
/// next depth, and a freshly created entity of a newly drawn kind joins
/// the back of the inventory.
pub open spec fn resolve_request(s: StateModel, req: BuildRequest) -> (StateModel,
    ResolveOutcome) {
    if req.refused is Some {
        (s, ResolveOutcome::Skipped)
    } else if !has_holder(s.slots, req.inventory) {
        (s, ResolveOutcome::Failed(ResolveError::UnknownInventory))
    } else {
        let si = holder_index(s.slots, req.inventory);
        let slot = s.slots[si];
        if !slot.items.contains(req.item) {
            (s, ResolveOutcome::Failed(ResolveError::MissingItem))
        } else {
            let j = slot.items.index_of(req.item);
            let new_item = s.next_entity;
            let new_slot = SlotModel {
                holder: slot.holder,
                items: slot.items.remove(j).push(new_item),
            };
            let placement = Placement {
                x: req.position.x,
                y: req.position.y,
                depth: (s.shapes_amount + 1) as u64,
            };
            let s2 = StateModel {
                slots: s.slots.update(si, new_slot),
                drawn: s.drawn + 1,
                shapes_amount: (s.shapes_amount + 1) as u64,
                next_entity: (s.next_entity + 1) as u64,
                ..s
            };
            (
                s2,
                ResolveOutcome::Placed {
                    item: req.item,
                    placement,
                    new_item,
                    new_item_type: drawn_item(s.seed, s.drawn),
                },
            )
        }
    }
}

/// A request whose position has x in [-200, 300) and y in [-100, 250) is
/// never refused: validation of the game's placement zone leaves it
/// exactly as it was.
pub proof fn lemma_in_zone_never_refused(req: BuildRequest)
    requires
        -200 <= req.position.x < 300,
        -100 <= req.position.y < 250,
    ensures
        validate_request(placement_zone(), req) == req,
{
}

/// A request whose position lies outside that rectangle is always refused
/// for want of place, whatever else it holds.
pub proof fn lemma_out_of_zone_always_refused(req: BuildRequest)
    requires
        !(-200 <= req.position.x < 300) || !(-100 <= req.position.y < 250),
    ensures
        validate_request(placement_zone(), req).refused == Some(RefusedBuild::NotEnoughPlace),
{
}

/// Resolution of a whole request list, in order, threading the state
/// through and collecting one outcome per request.
pub open spec fn resolve_all(s: StateModel, reqs: Seq<BuildRequest>) -> (StateModel, Seq<
    ResolveOutcome,
>)
    decreases reqs.len(),
{
    if reqs.len() == 0 {
        (s, Seq::<ResolveOutcome>::empty())
    } else {
        let prefix = resolve_all(s, reqs.drop_last());
        let step = resolve_request(prefix.0, reqs.last());
        (step.0, prefix.1.push(step.1))
    }
}

/// One whole tick: a click-release spawns a request, validation tags the
/// requests that lie outside the zone, the untagged ones are resolved in
/// order, and every request is deleted.
pub open spec fn tick_state(s: StateModel, released: bool, position: Pos, zone: Zone) -> (
    StateModel,
    ClickOutcome,
    Seq<ResolveOutcome>,
) {
    let spawned = spawn_request(s, released, position);
    let validated = StateModel { requests: validate_requests(zone, spawned.0.requests), ..spawned.0 };
    let resolved = resolve_all(validated, validated.requests);
    ((StateModel { requests: Seq::<BuildRequest>::empty(), ..resolved.0 }), spawned.1, resolved.1)
}

/// With no duplicate items, an occurrence of `x` at index `j` is the
/// occurrence `index_of` names.
pub proof fn lemma_index_of_unique(items: Seq<u64>, x: u64, j: int)
    requires
        items.no_duplicates(),
        0 <= j < items.len(),
        items[j] == x,
    ensures
        items.contains(x),
        items.index_of(x) == j,
{
    assert(items.contains(x));
    let k = items.index_of(x);
    assert(items[k] == x);
    assert(k == j);
}

/// Removing one item and appending one never seen before keeps an
/// inventory free of duplicates.
pub proof fn lemma_remove_push_no_duplicates(items: Seq<u64>, j: int, x: u64)
    requires
        items.no_duplicates(),
        0 <= j < items.len(),
        forall|k: int| 0 <= k < items.len() ==> items[k] != x,
    ensures
        items.remove(j).push(x).no_duplicates(),
{
    items.remove_ensures(j);
    let s = items.remove(j).push(x);
    assert forall|a: int, b: int|
        0 <= a < s.len() && 0 <= b < s.len() && a != b implies s[a] != s[b] by {
        let last = s.len() - 1;
        if a < last && b < last {
            let ia: int = if a < j { a } else { a + 1 };
            let ib: int = if b < j { b } else { b + 1 };
            assert(s[a] == items[ia]);
            assert(s[b] == items[ib]);
        } else if a == last {
            let ib: int = if b < j { b } else { b + 1 };
            assert(s[b] == items[ib]);
            assert(s[a] == x);
        } else {
            let ia: int = if a < j { a } else { a + 1 };
            assert(s[a] == items[ia]);
            assert(s[b] == x);
        }
    }
}

/// The first index holding `item`, if any.
fn find_item(items: &Vec<u64>, item: u64) -> (r: Option<usize>)
    ensures
        match r {
            Some(j) => j < items@.len() && items@[j as int] == item,
            None => forall|k: int| 0 <= k < items@.len() ==> items@[k] != item,
        },
{
    let n = items.len();
    let mut i: usize = 0;
    while i < n
        invariant
            i <= n,
            n == items@.len(),
            forall|k: int| 0 <= k < i ==> items@[k] != item,
        decreases n - i,
    {
        if items[i] == item {
            return Some(i);
        }
        i = i + 1;
    }
    None
}

/// The first slot belonging to `h`, if any.
fn find_slot(slots: &Vec<InventorySlot>, h: u64) -> (r: Option<usize>)
    ensures
        match r {
            Some(i) => i < slots@.len() && slot_views(slots@)[i as int].holder == h,
            None => !has_holder(slot_views(slots@), h),
        },
{
    let n = slots.len();
    let mut i: usize = 0;
    while i < n
        invariant
            i <= n,
            n == slots@.len(),
            forall|k: int| 0 <= k < i ==> #[trigger] slot_views(slots@)[k].holder != h,
        decreases n - i,
    {
        if slots[i].holder == h {
            return Some(i);
        }
        i = i + 1;
    }
    None
}

impl GameState {
    /// The state's internal invariant.
    pub open spec fn wf(&self) -> bool {
        state_wf(self@)
    }

    /// An empty game: no inventories, nothing selected, a generator
    /// seeded from `seed`, all counters at zero.
    pub fn new(seed: u64) -> (r: GameState)
        ensures
            r.wf(),
            r@.selection.inventories == Seq::<u64>::empty(),
            r@.selection.selected_index == 0,
            r@.slots == Seq::<SlotModel>::empty(),
            r@.requests == Seq::<BuildRequest>::empty(),
            r@.seed == seed,
            r@.drawn == 0,
            r@.shapes_amount == 0,
            r@.next_entity == 0,
    {
        let r = GameState {
            selection: Selection { inventories: Vec::new(), selected_index: 0 },
            slots: Vec::new(),
            requests: Vec::new(),
            rng: RandomDeterministic::new(seed),
            shapes_amount: 0,
            next_entity: 0,
        };
        proof {
            assert(r@.slots =~= Seq::<SlotModel>::empty());
            assert(r@.selection.inventories =~= Seq::<u64>::empty());
            assert(r@.requests =~= Seq::<BuildRequest>::empty());
        }
        r
    }

    /// Creates one inventory holder with `count` fresh items, and returns
    /// the holder entity.
    pub fn spawn_inventory(&mut self, count: usize) -> (holder: u64)
        requires
            old(self).wf(),
            old(self)@.next_entity + count + 1 <= u64::MAX,
        ensures
            final(self).wf(),
            holder == old(self)@.next_entity,
            final(self)@ == (StateModel {
                slots: old(self)@.slots.push(
                    SlotModel {
                        holder: old(self)@.next_entity,
                        items: Seq::new(
                            count as nat,
                            |i: int| (old(self)@.next_entity + 1 + i) as u64,
                        ),
                    },
                ),
                next_entity: (old(self)@.next_entity + count + 1) as u64,
                ..old(self)@
            }),
    {
        let ghost s0 = self@;
        let holder = self.next_entity;
        self.next_entity = self.next_entity + 1;
        let mut items: Vec<u64> = Vec::new();
        let mut i: usize = 0;
        while i < count
            invariant
                i <= count,
                holder == s0.next_entity,
                s0.next_entity + count + 1 <= u64::MAX,
                self.next_entity == holder + 1 + i,
                items@ == Seq::new(i as nat, |k: int| (holder + 1 + k) as u64),
                self.selection == old(self).selection,
                self.slots == old(self).slots,
                self.requests == old(self).requests,
                self.rng == old(self).rng,
                self.shapes_amount == old(self).shapes_amount,
            decreases count - i,
        {
            items.push(self.next_entity);
            self.next_entity = self.next_entity + 1;
            i = i + 1;
            proof {
                assert(items@ =~= Seq::new(i as nat, |k: int| (holder + 1 + k) as u64));
            }
        }
        let ghost slot_model = SlotModel {
            holder: s0.next_entity,
            items: Seq::new(count as nat, |k: int| (s0.next_entity + 1 + k) as u64),
        };
        self.slots.push(InventorySlot { holder, inventory: Inventory { items } });
        proof {
            assert(self@.slots =~= s0.slots.push(slot_model));
            assert(self@ =~= (StateModel {
                slots: s0.slots.push(slot_model),
                next_entity: (s0.next_entity + count + 1) as u64,
                ..s0
            }));
            let s = self@;
            assert forall|a: int, b: int|
                0 <= a < s.slots.len() && 0 <= b < s.slots.len() && a != b implies #[trigger] s
                .slots[a].holder != #[trigger] s.slots[b].holder by {
                if a < s.slots.len() - 1 && b < s.slots.len() - 1 {
                    assert(s.slots[a] == s0.slots[a]);
                    assert(s.slots[b] == s0.slots[b]);
                } else if a == s.slots.len() - 1 {
                    assert(s0.slots[b].holder < s0.next_entity);
                } else {
                    assert(s0.slots[a].holder < s0.next_entity);
                }
            }
            assert(slot_model.items.no_duplicates());
            assert(state_wf(self@));
        }
        holder
    }

    /// Records every holder in the selection, in slot order, and selects
    /// the first.
    pub fn setup_selection(&mut self)
        requires
            old(self).wf(),
        ensures
            final(self).wf(),
            final(self)@ == (StateModel {
                selection: SelectionModel {
                    inventories: holders_of(old(self)@.slots),
                    selected_index: 0,
                },
                ..old(self)@
            }),
    {
        let ghost s0 = self@;
        let mut holders: Vec<u64> = Vec::new();
        let mut i: usize = 0;
        let n = self.slots.len();
        while i < n
            invariant
                i <= n,
                n == self.slots@.len(),
                *self == *old(self),
                holders@ == holders_of(s0.slots).take(i as int),
                s0 == self@,
            decreases n - i,
        {
            let h = self.slots[i].holder;
            holders.push(h);
            i = i + 1;
            proof {
                assert(holders@ =~= holders_of(s0.slots).take(i as int));
            }
        }
        self.selection = Selection { inventories: holders, selected_index: 0 };
        proof {
            assert(holders_of(s0.slots).take(n as int) =~= holders_of(s0.slots));
            assert(self@ =~= (StateModel {
                selection: SelectionModel {
                    inventories: holders_of(s0.slots),
                    selected_index: 0,
                },
                ..s0
            }));
        }
    }

    /// On a click-release, spawns one build request for the selected
    /// inventory's front item at `position`; otherwise changes nothing and
    /// says why.
    pub fn click_get_out(&mut self, released: bool, position: Pos) -> (r: ClickOutcome)
        requires
            old(self).wf(),
        ensures
            final(self).wf(),
            final(self)@ == spawn_request(old(self)@, released, position).0,
            r == spawn_request(old(self)@, released, position).1,
    {
        let ghost s0 = self@;
        if !released {
            return ClickOutcome::NoClick;
        }
        let sel_idx = self.selection.selected_index;
        if sel_idx >= self.selection.inventories.len() {
            return ClickOutcome::Rejected(SpawnError::InvalidSelection);
        }
        let h = self.selection.inventories[sel_idx];
        let found = find_slot(&self.slots, h);
        match found {
            None => ClickOutcome::Rejected(SpawnError::UnknownInventory),
            Some(si) => {
                proof {
                    lemma_holder_index_unique(s0.slots, h, si as int);
                }
                let slot = &self.slots[si];
                if slot.inventory.items.len() == 0 {
                    ClickOutcome::Rejected(SpawnError::EmptyInventory)
                } else {
                    let item = slot.inventory.items[0];
                    let req = BuildRequest { inventory: h, item, position, refused: None };
                    self.requests.push(req);
                    proof {
                        assert(self@ =~= spawn_request(s0, released, position).0);
                    }
                    ClickOutcome::Spawned
                }
            },
        }
    }

    /// Tags every request whose position lies outside `zone` as refused;
    /// requests inside the zone are never refused here.
    pub fn verify_empty_space(&mut self, zone: &Zone)
        requires
            old(self).wf(),
        ensures
            final(self).wf(),
            final(self)@ == (StateModel {
                requests: validate_requests(*zone, old(self)@.requests),
                ..old(self)@
            }),
    {
        let ghost s0 = self@;
        let n = self.requests.len();
        let mut i: usize = 0;
        while i < n
            invariant
                i <= n,
                n == self.requests@.len(),
                self.selection == old(self).selection,
                self.slots == old(self).slots,
                self.rng == old(self).rng,
                self.shapes_amount == old(self).shapes_amount,
                self.next_entity == old(self).next_entity,
                s0 == old(self)@,
                forall|k: int|
                    0 <= k < i ==> self.requests@[k] == validate_request(*zone, s0.requests[k]),
                forall|k: int| i <= k < n ==> self.requests@[k] == s0.requests[k],
            decreases n - i,
        {
            let p = self.requests[i].position;
            if !zone.contains(p) {
                self.requests[i].refused = Some(RefusedBuild::NotEnoughPlace);
            }
            i = i + 1;
        }
        proof {
            assert(self@.requests =~= validate_requests(*zone, s0.requests));
            assert(self@ =~= (StateModel {
                requests: validate_requests(*zone, s0.requests),
                ..s0
            }));
        }
    }

    /// Resolves one request: skips tagged ones, drops malformed ones, and
    /// otherwise moves the item out of its inventory into the world and
    /// appends a freshly created entity of a newly drawn kind.
    pub fn resolve_one(&mut self, req: BuildRequest) -> (r: ResolveOutcome)
        requires
            old(self).wf(),
            old(self)@.shapes_amount < u64::MAX,
            old(self)@.next_entity < u64::MAX,
        ensures
            final(self).wf(),
            final(self)@ == resolve_request(old(self)@, req).0,
            r == resolve_request(old(self)@, req).1,
            old(self)@.shapes_amount <= final(self)@.shapes_amount
                <= old(self)@.shapes_amount + 1,
            old(self)@.next_entity <= final(self)@.next_entity <= old(self)@.next_entity + 1,
    {
        let ghost s0 = self@;
        if req.refused.is_some() {
            return ResolveOutcome::Skipped;
        }
        let found = find_slot(&self.slots, req.inventory);
        let si = match found {
            None => {
                return ResolveOutcome::Failed(ResolveError::UnknownInventory);
            },
            Some(si) => si,
        };
        proof {
            lemma_holder_index_unique(s0.slots, req.inventory, si as int);
        }
        let fi = find_item(&self.slots[si].inventory.items, req.item);
        let j = match fi {
            None => {
                proof {
                    assert(!s0.slots[si as int].items.contains(req.item));
                }
                return ResolveOutcome::Failed(ResolveError::MissingItem);
            },
            Some(j) => j,
        };
        proof {
            lemma_index_of_unique(s0.slots[si as int].items, req.item, j as int);
        }
        self.slots[si].inventory.items.remove(j);
        self.shapes_amount = self.shapes_amount + 1;
        let new_item = self.next_entity;
        self.next_entity = self.next_entity + 1;
        let drawn_kind = get_random_item(&mut self.rng);
        self.slots[si].inventory.items.push(new_item);
        let placement = Placement {
            x: req.position.x,
            y: req.position.y,
            depth: self.shapes_amount,
        };
        proof {
            let old_items = s0.slots[si as int].items;
            let new_slot = SlotModel {
                holder: s0.slots[si as int].holder,
                items: old_items.remove(j as int).push(new_item),
            };
            assert(self@.slots =~= s0.slots.update(si as int, new_slot));
            assert(self@ =~= resolve_request(s0, req).0);
            lemma_remove_push_no_duplicates(old_items, j as int, new_item);
            old_items.remove_ensures(j as int);
            let s = self@;
            assert forall|a: int, k: int|
                0 <= a < s.slots.len() && 0 <= k < s.slots[a].items.len() implies #[trigger] s
                .slots[a].items[k] < s.next_entity by {
                if a == si as int {
                    let ni = new_slot.items;
                    if k < ni.len() - 1 {
                        let ik: int = if k < j { k } else { k + 1 };
                        assert(ni[k] == old_items[ik]);
                    } else {
                        assert(ni[k] == new_item);
                    }
                } else {
                    assert(s.slots[a] == s0.slots[a]);
                }
            }
            assert(state_wf(self@));
        }
        ResolveOutcome::Placed { item: req.item, placement, new_item, new_item_type: drawn_kind }
    }

    /// Resolves every request in order, collecting one outcome per
    /// request; tagged requests are skipped, so a refused placement leaves
    /// its inventory untouched.
    pub fn react_to_build(&mut self) -> (outs: Vec<ResolveOutcome>)
        requires
            old(self).wf(),
            old(self)@.shapes_amount + old(self)@.requests.len() <= u64::MAX,
            old(self)@.next_entity + old(self)@.requests.len() <= u64::MAX,
        ensures
            final(self).wf(),
            final(self)@ == resolve_all(old(self)@, old(self)@.requests).0,
            outs@ == resolve_all(old(self)@, old(self)@.requests).1,
    {
        let ghost s0 = self@;
        let mut outs: Vec<ResolveOutcome> = Vec::new();
        let n = self.requests.len();
        let mut i: usize = 0;
        proof {
            assert(s0.requests.take(0) =~= Seq::<BuildRequest>::empty());
            assert(outs@ =~= Seq::<ResolveOutcome>::empty());
        }
        while i < n
            invariant
                i <= n,
                n == s0.requests.len(),
                self@.requests == s0.requests,
                state_wf(self@),
                self@ == resolve_all(s0, s0.requests.take(i as int)).0,
                outs@ == resolve_all(s0, s0.requests.take(i as int)).1,
                self@.shapes_amount <= s0.shapes_amount + i,
                self@.next_entity <= s0.next_entity + i,
                s0.shapes_amount + n <= u64::MAX,
                s0.next_entity + n <= u64::MAX,
            decreases n - i,
        {
            let req = self.requests[i];
            let o = self.resolve_one(req);
            outs.push(o);
            i = i + 1;
            proof {
                assert(s0.requests.take(i as int).drop_last() =~= s0.requests.take(i - 1));
                assert(s0.requests.take(i as int).last() == s0.requests[i - 1]);
            }
        }
        proof {
            assert(s0.requests.take(n as int) =~= s0.requests);
        }
        outs
    }

    /// Deletes every build request, whatever its outcome was: none
    /// survives into the next tick.
    pub fn clear_build_requests(&mut self)
        ensures
            final(self)@ == (StateModel { requests: Seq::<BuildRequest>::empty(), ..old(self)@ }),
            old(self).wf() ==> final(self).wf(),
    {
        self.requests.clear();
        proof {
            assert(self@ =~= (StateModel { requests: Seq::<BuildRequest>::empty(), ..old(self)@ }));
        }
    }

    /// Runs one whole tick: spawn on a click-release, validate against
    /// `zone`, resolve what was not refused, then delete every request.
    /// Afterwards no request exists, whatever happened.
    pub fn tick(&mut self, released: bool, position: Pos, zone: &Zone) -> (r: TickReport)
        requires
            old(self).wf(),
            old(self)@.shapes_amount + old(self)@.requests.len() + 1 <= u64::MAX,
            old(self)@.next_entity + old(self)@.requests.len() + 1 <= u64::MAX,
        ensures
            final(self).wf(),
            final(self)@ == tick_state(old(self)@, released, position, *zone).0,
            r.click == tick_state(old(self)@, released, position, *zone).1,
            r.resolved@ == tick_state(old(self)@, released, position, *zone).2,
            final(self)@.requests == Seq::<BuildRequest>::empty(),
    {
        let ghost s0 = self@;
        let click = self.click_get_out(released, position);
        let ghost spawned = spawn_request(s0, released, position).0;
        let ghost validated = StateModel {
            requests: validate_requests(*zone, spawned.requests),
            ..spawned
        };
        let resolved = if self.requests.len() > 0 {
            self.verify_empty_space(zone);
            self.react_to_build()
        } else {
            let empty_outs: Vec<ResolveOutcome> = Vec::new();
            proof {
                assert(validate_requests(*zone, spawned.requests) =~= spawned.requests);
                assert(validated =~= spawned);
                assert(empty_outs@ =~= resolve_all(validated, validated.requests).1);
            }
            empty_outs
        };
        proof {
            assert(self@ == resolve_all(validated, validated.requests).0);
        }
        self.clear_build_requests();
        proof {
            assert(self@ =~= tick_state(s0, released, position, *zone).0);
        }
        TickReport { click, resolved }
    }
}

/// After resolution of a valid request for an inventory's front item: the
/// front changes (the old front is removed and never reappears), the
/// inventory's length is unchanged, and its back is a freshly created
/// entity that the inventory never held before.
pub proof fn lemma_resolution_renews_inventory(s: StateModel, req: BuildRequest)
    requires
        state_wf(s),
        req.refused is None,
        has_holder(s.slots, req.inventory),
        s.slots[holder_index(s.slots, req.inventory)].items.len() > 0,
        req.item == s.slots[holder_index(s.slots, req.inventory)].items[0],
        s.shapes_amount < u64::MAX,
        s.next_entity < u64::MAX,
    ensures
        ({
            let si = holder_index(s.slots, req.inventory);
            let before = s.slots[si].items;
            let after = resolve_request(s, req).0.slots[si].items;
            &&& resolve_request(s, req).1 is Placed
            &&& after.len() == before.len()
            &&& after[0] != before[0]
            &&& !after.contains(before[0])
            &&& after.last() == s.next_entity
            &&& !before.contains(s.next_entity)
        }),
{
    let si = holder_index(s.slots, req.inventory);
    let before = s.slots[si].items;
    assert(0 <= si < s.slots.len() && s.slots[si].holder == req.inventory);
    assert(before.contains(req.item));
    lemma_index_of_unique(before, req.item, 0);
    before.remove_ensures(0);
    let after = resolve_request(s, req).0.slots[si].items;
    assert(after == before.remove(0).push(s.next_entity));
    assert(after.len() == before.len());
    assert forall|k: int| 0 <= k < before.len() implies before[k] != s.next_entity by {
        assert(before[k] < s.next_entity);
    }
    assert(!before.contains(s.next_entity));
    if before.len() == 1 {
        assert(after[0] == s.next_entity);
        assert(before[0] < s.next_entity);
    } else {
        assert(after[0] == before.remove(0)[0]);
        assert(before.remove(0)[0] == before[1]);
        assert(before[1] != before[0]);
    }
    assert forall|k: int| 0 <= k < after.len() implies after[k] != before[0] by {
        if k < after.len() - 1 {
            assert(after[k] == before.remove(0)[k]);
            assert(before.remove(0)[k] == before[k + 1]);
            assert(before[k + 1] != before[0]);
        } else {
            assert(after[k] == s.next_entity);
            assert(before[0] < s.next_entity);
        }
    }
    assert(!after.contains(before[0]));
}

/// What one tick did: the spawner's outcome and one resolver outcome per
/// request that existed after spawning.
pub struct TickReport {
    pub click: ClickOutcome,
    pub resolved: Vec<ResolveOutcome>,
}

} // verus!

//! Machines and belts: the panel's text, its buttons, and the cargo shown on
//! belts.

use crate::blocks::BlockRegistry;
use crate::chunk::BlockId;
use crate::geometry::IVec3;
use crate::item::{ItemId, ItemRegistry};
use crate::packed::{PackedMap, PackedSet};
use crate::pause::PauseState;
use crate::protocol::{ClientToServer, ContainerKind, FactoryAction};
use crate::state::OpenContainer;
use crate::text::{spaced, spaced_name};
use vstd::prelude::*;

verus! {

/// What a machine holds, with its numbers as they are to be shown.
#[derive(Debug)]
pub struct FactoryBufferView {
    pub item: ItemId,
    pub amount: String,
    pub capacity: String,
    pub rate: String,
}

/// A machine as the server describes it, with its numbers as they are to be
/// shown.
#[derive(Debug)]
pub struct FactoryView {
    pub pos: IVec3,
    pub block: BlockId,
    pub direction: u8,
    pub enabled: bool,
    pub input: Option<FactoryBufferView>,
    pub output: Option<FactoryBufferView>,
    /// Ore that is left.
    pub reserve: String,
    /// Share of the power that it needs, in percent.
    pub power: String,
}

/// The name of a direction, counted around from east.
pub open spec fn direction_name(direction: int) -> Seq<char> {
    if direction % 4 == 0 {
        "East (+X)"@
    } else if direction % 4 == 1 {
        "South (+Z)"@
    } else if direction % 4 == 2 {
        "West (-X)"@
    } else {
        "North (-Z)"@
    }
}

fn name_of_direction(direction: u8) -> (name: &'static str)
    ensures
        name@ == direction_name(direction as int),
{
    if direction % 4 == 0 {
        "East (+X)"
    } else if direction % 4 == 1 {
        "South (+Z)"
    } else if direction % 4 == 2 {
        "West (-X)"
    } else {
        "North (-Z)"
    }
}

/// The step in a direction, counted around from east.
pub open spec fn step_of(direction: int) -> IVec3 {
    if direction % 4 == 0 {
        IVec3 { x: 1, y: 0, z: 0 }
    } else if direction % 4 == 1 {
        IVec3 { x: 0, y: 0, z: 1 }
    } else if direction % 4 == 2 {
        IVec3 { x: (-1) as i32, y: 0, z: 0 }
    } else {
        IVec3 { x: 0, y: 0, z: (-1) as i32 }
    }
}

/// The step in a direction.
pub fn flow_direction(direction: u8) -> (step: IVec3)
    ensures
        step == step_of(direction as int),
{
    if direction % 4 == 0 {
        IVec3 { x: 1, y: 0, z: 0 }
    } else if direction % 4 == 1 {
        IVec3 { x: 0, y: 0, z: 1 }
    } else if direction % 4 == 2 {
        IVec3 { x: -1, y: 0, z: 0 }
    } else {
        IVec3 { x: 0, y: 0, z: -1 }
    }
}

/// A machine faces each way after a full turn again, and half a turn faces it
/// the other way.
pub proof fn law_directions_turn(direction: int)
    ensures
        step_of(direction + 4) == step_of(direction),
        step_of(direction + 2).x == -step_of(direction).x,
        step_of(direction + 2).z == -step_of(direction).z,
{
}

/// A line about what a machine holds.
pub open spec fn buffer_line(label: Seq<char>, b: Option<FactoryBufferView>, items: ItemRegistry) -> Seq<
    char,
> {
    match b {
        Some(b) => label + ": "@ + spaced_name(items.def(b.item).name@) + "  "@ + b.amount@ + "/"@
            + b.capacity@ + "  ("@ + b.rate@ + "/s)"@,
        None => label + ": --"@,
    }
}

fn push_buffer(text: &mut String, label: &str, b: &Option<FactoryBufferView>, items: &ItemRegistry)
    requires
        *b is Some ==> items.has((*b)->0.item),
    ensures
        final(text)@ == old(text)@ + buffer_line(label@, *b, *items),
{
    let ghost before = text@;
    text.append(label);
    match b {
        Some(b) => {
            let name = spaced(items.get(b.item).name.as_str());
            text.append(": ");
            text.append(name.as_str());
            text.append("  ");
            text.append(b.amount.as_str());
            text.append("/");
            text.append(b.capacity.as_str());
            text.append("  (");
            text.append(b.rate.as_str());
            text.append("/s)");
        },
        None => {
            text.append(": --");
        },
    }
    assert(text@ =~= before + buffer_line(label@, *b, *items));
}

/// The line about power, and for a miner about the ore that is left.
pub open spec fn power_line(view: FactoryView, blocks: BlockRegistry) -> Seq<char> {
    if view.block == blocks.known.miner {
        "Power: "@ + view.power@ + "% | Ore remaining: "@ + view.reserve@
    } else {
        "Power: "@ + view.power@ + "%"@
    }
}

/// The text of a machine's panel.
pub open spec fn status_of(view: FactoryView, items: ItemRegistry, blocks: BlockRegistry) -> Seq<char> {
    spaced_name(blocks.def(view.block).name@) + " | "@ + (if view.enabled {
        "Running"@
    } else {
        "Stopped"@
    }) + " | Output: "@ + direction_name(view.direction as int) + "\n"@ + power_line(view, blocks)
        + "\n"@ + buffer_line("Input"@, view.input, items) + "\n"@ + buffer_line(
        "Output"@,
        view.output,
        items,
    )
}

/// The text of a machine's panel.
pub fn status_text(view: &FactoryView, items: &ItemRegistry, blocks: &BlockRegistry) -> (text: String)
    requires
        blocks.has(view.block),
        view.input is Some ==> items.has(view.input->0.item),
        view.output is Some ==> items.has(view.output->0.item),
    ensures
        text@ == status_of(*view, *items, *blocks),
{
    let mut text = spaced(blocks.get(view.block).name.as_str());
    text.append(" | ");
    text.append(if view.enabled { "Running" } else { "Stopped" });
    text.append(" | Output: ");
    text.append(name_of_direction(view.direction));
    text.append("\n");
    let ghost head = text@;
    text.append("Power: ");
    text.append(view.power.as_str());
    if view.block == blocks.known.miner {
        text.append("% | Ore remaining: ");
        text.append(view.reserve.as_str());
    } else {
        text.append("%");
    }
    assert(text@ =~= head + power_line(*view, *blocks));
    text.append("\n");
    push_buffer(&mut text, "Input", &view.input, items);
    text.append("\n");
    push_buffer(&mut text, "Output", &view.output, items);
    text
}

/// Whether the panel of a machine is open.
pub open spec fn factory_open(container: Option<OpenContainer>) -> bool {
    container is Some && container->0.kind == ContainerKind::Factory
}

/// Whether a description is about the machine whose panel is open.
pub fn shows_status(container: &Option<OpenContainer>, view: &FactoryView) -> (b: bool)
    ensures
        b == (factory_open(*container) && container->0.pos == view.pos),
{
    match container {
        Some(open) => open.kind == ContainerKind::Factory && open.pos == view.pos,
        None => false,
    }
}

/// What a button of a machine's panel asks for: nothing unless the panel is
/// open and the player alive.
pub fn factory_action(
    pause: PauseState,
    dead: bool,
    container: &Option<OpenContainer>,
    action: FactoryAction,
) -> (msg: Option<ClientToServer>)
    ensures
        msg == if pause == PauseState::Inventory && !dead && factory_open(*container) {
            Some(ClientToServer::FactoryAction { pos: container->0.pos, action })
        } else {
            None
        },
{
    if pause != PauseState::Inventory || dead {
        return None;
    }
    match container {
        Some(open) => {
            if open.kind == ContainerKind::Factory {
                Some(ClientToServer::FactoryAction { pos: open.pos, action })
            } else {
                None
            }
        },
        None => None,
    }
}

/// Items that move along a belt.
#[derive(Clone, Copy, Debug, PartialEq, Eq, Structural)]
pub struct BeltFlow {
    pub pos: IVec3,
    pub direction: u8,
    pub item: ItemId,
    /// The bit pattern of the rate, in items per second.
    pub rate: u64,
    /// The rate is worth showing.
    pub moving: bool,
}

/// The flow to show at each position: the last that moves there.
pub open spec fn flows_shown(flows: Seq<BeltFlow>) -> Map<IVec3, BeltFlow>
    decreases flows.len(),
{
    if flows.len() == 0 {
        Map::empty()
    } else if flows.last().moving {
        flows_shown(flows.drop_last()).insert(flows.last().pos, flows.last())
    } else {
        flows_shown(flows.drop_last())
    }
}

/// What is to be done so that the cargo shown matches the flows.
#[derive(Debug)]
pub struct CargoPlan {
    /// Positions whose cargo goes.
    pub remove: Vec<IVec3>,
    /// Cargo that is there and gets a new flow.
    pub update: Vec<BeltFlow>,
    /// Cargo that appears.
    pub spawn: Vec<BeltFlow>,
}

/// Whether a list holds exactly the flows of a map whose positions are in a
/// set or not, each once.
pub open spec fn lists_flows(
    list: Seq<BeltFlow>,
    wanted: Map<IVec3, BeltFlow>,
    shown: Set<IVec3>,
    inside: bool,
) -> bool {
    &&& list.no_duplicates()
    &&& forall|f: BeltFlow| #[trigger]
        list.contains(f) <==> wanted.contains_key(f.pos) && wanted[f.pos] == f && shown.contains(f.pos)
            == inside
}

/// Every flow is filed under its own position.
proof fn lemma_flows_keyed(flows: Seq<BeltFlow>)
    ensures
        forall|p: IVec3| #[trigger]
            flows_shown(flows).contains_key(p) ==> flows_shown(flows)[p].pos == p,
    decreases flows.len(),
{
    if flows.len() > 0 {
        let rest = flows_shown(flows.drop_last());
        lemma_flows_keyed(flows.drop_last());
        assert forall|p: IVec3| #[trigger] flows_shown(flows).contains_key(p) implies flows_shown(
            flows,
        )[p].pos == p by {
            if !(flows.last().moving && p == flows.last().pos) {
                assert(rest.contains_key(p));
            }
        }
    }
}

/// Matches the cargo shown to the flows: what does not move any more goes,
/// what is there is kept, what is new appears.
pub fn sync_cargo(shown: &mut PackedSet<IVec3>, flows: &Vec<BeltFlow>) -> (plan: CargoPlan)
    ensures
        ({
            let wanted = flows_shown(flows@);
            &&& plan.remove@.no_duplicates()
            &&& plan.remove@.to_set() == old(shown)@.difference(wanted.dom())
            &&& lists_flows(plan.update@, wanted, old(shown)@, true)
            &&& lists_flows(plan.spawn@, wanted, old(shown)@, false)
            &&& final(shown)@ == wanted.dom()
        }),
{
    let ghost before = shown@;
    let mut wanted: PackedMap<IVec3, BeltFlow> = PackedMap::new();
    let mut n: usize = 0;
    while n < flows.len()
        invariant
            n <= flows@.len(),
            wanted@ == flows_shown(flows@.take(n as int)),
        decreases flows@.len() - n,
    {
        proof {
            let upto = flows@.take(n + 1);
            assert(upto.drop_last() =~= flows@.take(n as int));
            assert(upto.last() == flows@[n as int]);
        }
        let flow = flows[n];
        if flow.moving {
            wanted.insert(flow.pos, flow);
        }
        n += 1;
    }
    proof {
        assert(flows@.take(n as int) =~= flows@);
        lemma_flows_keyed(flows@);
    }
    let present = shown.to_vec();
    let mut remove: Vec<IVec3> = Vec::new();
    let mut m: usize = 0;
    assert(shown@ =~= before.difference(remove@.to_set()));
    while m < present.len()
        invariant
            m <= present@.len(),
            present@.no_duplicates(),
            remove@.no_duplicates(),
            forall|p: IVec3| #[trigger]
                remove@.contains(p) <==> present@.take(m as int).contains(p) && !wanted@.contains_key(p),
            shown@ == before.difference(remove@.to_set()),
        decreases present@.len() - m,
    {
        let pos = present[m];
        proof {
            let seen = present@.take(m as int);
            assert(present@.take(m + 1) =~= seen.push(pos));
            assert(!seen.contains(pos));
            crate::lists::lemma_push_contains(seen, pos);
            crate::lists::lemma_push_contains(remove@, pos);
        }
        if !wanted.contains_key(pos) {
            remove.push(pos);
            shown.remove(pos);
            assert(shown@ =~= before.difference(remove@.to_set()));
        }
        m += 1;
    }
    proof {
        assert(present@.take(m as int) =~= present@);
        assert forall|p: IVec3| remove@.to_set().contains(p) == before.difference(
            wanted@.dom(),
        ).contains(p) by {
            assert(present@.to_set().contains(p) == before.contains(p));
        }
        assert(remove@.to_set() =~= before.difference(wanted@.dom()));
    }
    let keys = wanted.keys();
    let mut update: Vec<BeltFlow> = Vec::new();
    let mut spawn: Vec<BeltFlow> = Vec::new();
    let mut k: usize = 0;
    let ghost kept = shown@;
    while k < keys.len()
        invariant
            k <= keys@.len(),
            keys@.no_duplicates(),
            keys@.to_set() == wanted@.dom(),
            wanted@ == flows_shown(flows@),
            forall|p: IVec3| #[trigger] wanted@.contains_key(p) ==> wanted@[p].pos == p,
            kept == before.intersect(wanted@.dom()),
            shown@ == kept.union(keys@.take(k as int).to_set()),
            update@.no_duplicates(),
            spawn@.no_duplicates(),
            forall|f: BeltFlow| #[trigger]
                update@.contains(f) <==> keys@.take(k as int).contains(f.pos) && wanted@[f.pos] == f
                    && before.contains(f.pos),
            forall|f: BeltFlow| #[trigger]
                spawn@.contains(f) <==> keys@.take(k as int).contains(f.pos) && wanted@[f.pos] == f
                    && !before.contains(f.pos),
        decreases keys@.len() - k,
    {
        let pos = keys[k];
        assert(keys@.to_set().contains(keys@[k as int]));
        match wanted.get(pos) {
            Some(flow) => {
                proof {
                    let seen = keys@.take(k as int);
                    assert(keys@.take(k + 1) =~= seen.push(pos));
                    assert(!seen.contains(pos));
                    crate::lists::lemma_push_contains(seen, pos);
                    crate::lists::lemma_push_contains(update@, *flow);
                    crate::lists::lemma_push_contains(spawn@, *flow);
                }
                if shown.contains(pos) {
                    update.push(*flow);
                } else {
                    spawn.push(*flow);
                    shown.insert(pos);
                }
                assert(shown@ =~= kept.union(keys@.take(k + 1).to_set()));
            },
            None => {},
        }
        k += 1;
    }
    proof {
        assert(keys@.take(k as int) =~= keys@);
        assert forall|p: IVec3| keys@.contains(p) == wanted@.contains_key(p) by {
            assert(keys@.to_set().contains(p) == wanted@.dom().contains(p));
        }
        assert(shown@ =~= wanted@.dom());
    }
    CargoPlan { remove, update, spawn }
}

/// The four directions are east, south, west and north, and the panel names
/// the way that the cargo goes.
pub proof fn law_directions_are_named(direction: int)
    ensures
        direction % 4 == 0 ==> step_of(direction) == (IVec3 { x: 1, y: 0, z: 0 }) && direction_name(
            direction,
        ) == "East (+X)"@,
        direction % 4 == 1 ==> step_of(direction) == (IVec3 { x: 0, y: 0, z: 1 }) && direction_name(
            direction,
        ) == "South (+Z)"@,
        direction % 4 == 2 ==> step_of(direction) == (IVec3 { x: (-1) as i32, y: 0, z: 0 })
            && direction_name(direction) == "West (-X)"@,
        direction % 4 == 3 ==> step_of(direction) == (IVec3 { x: 0, y: 0, z: (-1) as i32 })
            && direction_name(direction) == "North (-Z)"@,
{
}

/// Cargo is shown exactly where a belt moves, as the last report of a moving
/// belt there says.
pub proof fn law_moving_belts_show_cargo(flows: Seq<BeltFlow>, n: int, pos: IVec3)
    requires
        0 <= n < flows.len(),
    ensures
        flows[n].moving && flows[n].pos == pos && (forall|k: int|
            n < k < flows.len() ==> !((#[trigger] flows[k]).moving && flows[k].pos == pos))
            ==> flows_shown(flows).contains_key(pos) && flows_shown(flows)[pos] == flows[n],
        (forall|k: int|
            0 <= k < flows.len() ==> !((#[trigger] flows[k]).moving && flows[k].pos == pos))
            ==> !flows_shown(flows).contains_key(pos),
    decreases flows.len(),
{
    let rest = flows.drop_last();
    assert forall|k: int| 0 <= k < rest.len() implies rest[k] == flows[k] by {}
    assert(flows[flows.len() - 1] == flows.last());
    if rest.len() > 0 {
        law_moving_belts_show_cargo(
            rest,
            if n < rest.len() {
                n
            } else {
                0
            },
            pos,
        );
    } else {
        assert(flows_shown(rest) == Map::<IVec3, BeltFlow>::empty());
    }
}

/// A machine's panel is open exactly if the open container is a machine.
pub proof fn law_only_machines_have_panels(container: Option<OpenContainer>)
    ensures
        factory_open(container) <==> container is Some && container->0.kind
            == ContainerKind::Factory,
{
}

/// The panel of a machine has four lines: its name with whether it runs and
/// where its output goes; its power, and for a miner alone the ore that is
/// left; what it takes in; and what it gives out. The last two name what the
/// machine holds with its amount, its room and its rate, or show two dashes.
pub proof fn law_panels_have_four_lines(
    view: FactoryView,
    items: ItemRegistry,
    blocks: BlockRegistry,
    b: FactoryBufferView,
    label: Seq<char>,
)
    ensures
        ({
            let running = status_of(FactoryView { enabled: true, ..view }, items, blocks);
            let stopped = status_of(FactoryView { enabled: false, ..view }, items, blocks);
            let name = spaced_name(blocks.defs@[view.block.0 as int].name@);
            let rest = " | Output: "@ + direction_name(view.direction as int) + "\n"@ + power_line(
                view,
                blocks,
            ) + "\n"@ + buffer_line("Input"@, view.input, items) + "\n"@ + buffer_line(
                "Output"@,
                view.output,
                items,
            );
            &&& running == name + " | "@ + "Running"@ + rest
            &&& stopped == name + " | "@ + "Stopped"@ + rest
        }),
        view.block == blocks.known.miner ==> power_line(view, blocks) == "Power: "@ + view.power@
            + "% | Ore remaining: "@ + view.reserve@,
        view.block != blocks.known.miner ==> power_line(view, blocks) == "Power: "@ + view.power@
            + "%"@,
        buffer_line(label, None, items) == label + ": --"@,
        buffer_line(label, Some(b), items) == label + ": "@ + spaced_name(
            items.defs@[b.item.0 as int].name@,
        ) + "  "@ + b.amount@ + "/"@ + b.capacity@ + "  ("@ + b.rate@ + "/s)"@,
{
    let name = spaced_name(blocks.defs@[view.block.0 as int].name@);
    lemma_lines_follow(name + " | "@ + "Running"@, view, items, blocks);
    lemma_lines_follow(name + " | "@ + "Stopped"@, view, items, blocks);
}

proof fn lemma_lines_follow(
    head: Seq<char>,
    view: FactoryView,
    items: ItemRegistry,
    blocks: BlockRegistry,
)
    ensures
        head + " | Output: "@ + direction_name(view.direction as int) + "\n"@ + power_line(
            view,
            blocks,
        ) + "\n"@ + buffer_line("Input"@, view.input, items) + "\n"@ + buffer_line(
            "Output"@,
            view.output,
            items,
        ) == head + (" | Output: "@ + direction_name(view.direction as int) + "\n"@ + power_line(
            view,
            blocks,
        ) + "\n"@ + buffer_line("Input"@, view.input, items) + "\n"@ + buffer_line(
            "Output"@,
            view.output,
            items,
        )),
{
    let a = " | Output: "@;
    let b = direction_name(view.direction as int);
    let c = "\n"@;
    let d = power_line(view, blocks);
    let e = buffer_line("Input"@, view.input, items);
    let f = buffer_line("Output"@, view.output, items);
    lemma_regrouped(head, a, b);
    lemma_regrouped(head, a + b, c);
    lemma_regrouped(head, a + b + c, d);
    lemma_regrouped(head, a + b + c + d, c);
    lemma_regrouped(head, a + b + c + d + c, e);
    lemma_regrouped(head, a + b + c + d + c + e, c);
    lemma_regrouped(head, a + b + c + d + c + e + c, f);
}

proof fn lemma_regrouped(a: Seq<char>, b: Seq<char>, c: Seq<char>)
    ensures
        a + b + c == a + (b + c),
{
    assert(a + b + c =~= a + (b + c));
}

/// Every belt that moves gets its cargo: where cargo was shown already it
/// gets the new flow, elsewhere it appears, and each belt is served once, in
/// one of the two ways.
pub proof fn law_every_moving_belt_is_served(
    update: Seq<BeltFlow>,
    spawn: Seq<BeltFlow>,
    flows: Seq<BeltFlow>,
    shown: Set<IVec3>,
    pos: IVec3,
)
    requires
        lists_flows(update, flows_shown(flows), shown, true),
        lists_flows(spawn, flows_shown(flows), shown, false),
    ensures
        flows_shown(flows).contains_key(pos) && shown.contains(pos) ==> update.contains(
            flows_shown(flows)[pos],
        ) && !spawn.contains(flows_shown(flows)[pos]),
        flows_shown(flows).contains_key(pos) && !shown.contains(pos) ==> spawn.contains(
            flows_shown(flows)[pos],
        ) && !update.contains(flows_shown(flows)[pos]),
        !flows_shown(flows).contains_key(pos) ==> forall|f: BeltFlow|
            f.pos == pos ==> !(#[trigger] update.contains(f)) && !spawn.contains(f),
        update.no_duplicates(),
        spawn.no_duplicates(),
{
    lemma_flows_keyed(flows);
    if flows_shown(flows).contains_key(pos) {
        let f = flows_shown(flows)[pos];
        assert(f.pos == pos);
        assert(update.contains(f) <==> shown.contains(pos));
        assert(spawn.contains(f) <==> !shown.contains(pos));
    }
    assert forall|f: BeltFlow|
        f.pos == pos && !flows_shown(flows).contains_key(pos) implies !(#[trigger] update.contains(f))
        && !spawn.contains(f) by {
        assert(spawn.contains(f) ==> flows_shown(flows).contains_key(f.pos));
    }
}

} // verus!

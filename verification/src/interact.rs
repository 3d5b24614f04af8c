//! Mining, placing and using blocks.
//!
//! Times are nanoseconds.

use crate::blocks::{BlockDef, BlockRegistry, KnownBlocks};
use crate::chunk::BlockId;
use crate::geometry::IVec3;
use crate::hotbar::{slot_of, Hotbar};
use crate::item::{ItemRegistry, ItemStack, ToolDef, ToolKind, ToolTier};
use crate::protocol::{ClientToServer, GameMode};
use crate::text::{joined, spaced, spaced_name};
use crate::view::{block_at, edited, set_block, ChunkStore};
use vstd::prelude::*;

verus! {

/// The block under the crosshair, and the side that is looked at. The normal
/// is zero where the eye is inside the block.
#[derive(Clone, Copy, Debug, PartialEq, Eq, Structural)]
pub struct Hit {
    pub block: IVec3,
    pub face_normal: IVec3,
}

/// Which block is being mined, and for how long.
#[derive(Clone, Copy, Debug, PartialEq, Eq, Structural)]
pub struct MiningProgress {
    pub target: Option<IVec3>,
    pub elapsed: u64,
}

impl Default for MiningProgress {
    fn default() -> (m: MiningProgress)
        ensures
            m == idle(),
    {
        MiningProgress { target: None, elapsed: 0 }
    }
}

/// Nothing is being mined.
pub open spec fn idle() -> MiningProgress {
    MiningProgress { target: None, elapsed: 0 }
}

/// What the player does with mouse and keys, and what follows from where the
/// player stands.
#[derive(Clone, Copy, Debug)]
pub struct Clicks {
    /// The cursor is grabbed by the game.
    pub grabbed: bool,
    pub dead: bool,
    pub escape_pressed: bool,
    pub inventory_pressed: bool,
    pub left_down: bool,
    pub left_pressed: bool,
    pub right_pressed: bool,
    /// Duration of the frame.
    pub dt: u64,
    /// How long the targeted block takes to break.
    pub break_time: u64,
    /// There is no player, or the player's body is where a block would be
    /// placed.
    pub place_blocked: bool,
}

/// What the mouse acts on.
#[derive(Clone, Copy)]
pub struct Hands<'a> {
    pub hotbar: Hotbar,
    pub main: &'a Vec<Option<ItemStack>>,
    pub mode: GameMode,
    pub items: &'a ItemRegistry,
    pub blocks: &'a BlockRegistry,
}

impl<'a> Hands<'a> {
    /// The stack in hand.
    pub open spec fn stack(self) -> Option<ItemStack> {
        slot_of(self.main@, self.hotbar.selected as int)
    }

    /// Whether the stack in hand is of a known kind, and its slot fits into
    /// a message.
    pub open spec fn wf(self) -> bool {
        &&& self.hotbar.selected < 9
        &&& self.stack() is Some ==> self.items.has(self.stack()->0.item)
    }

    /// The tool in hand.
    pub open spec fn tool(self) -> Option<ToolDef> {
        match self.stack() {
            Some(s) => self.items.def(s.item).tool,
            None => None,
        }
    }

    pub open spec fn slot(self) -> u8 {
        self.hotbar.selected as u8
    }
}

/// The tool that a stack is, if it is one.
pub fn held_tool(stack: Option<ItemStack>, items: &ItemRegistry) -> (tool: Option<ToolDef>)
    requires
        stack is Some ==> items.has(stack->0.item),
    ensures
        tool == match stack {
            Some(s) => items.def(s.item).tool,
            None => None,
        },
{
    match stack {
        Some(s) => items.tool(s.item),
        None => None,
    }
}

/// Whether a block's side can be tilled with a tool: the top of grass or
/// dirt, with a shovel.
pub open spec fn tillable(known: KnownBlocks, block: BlockId, normal: IVec3, tool: Option<ToolDef>) -> bool {
    &&& normal == (IVec3 { x: 0, y: 1, z: 0 })
    &&& block == known.grass || block == known.dirt
    &&& tool is Some
    &&& tool->0.kind == ToolKind::Shovel
}

/// Whether a block's side can be tilled with a tool.
pub fn can_till(known: &KnownBlocks, block: BlockId, normal: IVec3, tool: Option<ToolDef>) -> (b: bool)
    ensures
        b == tillable(*known, block, normal, tool),
{
    let shovel = match tool {
        Some(t) => t.kind == ToolKind::Shovel,
        None => false,
    };
    normal.x == 0 && normal.y == 1 && normal.z == 0 && (block == known.grass || block
        == known.dirt) && shovel
}

/// Whether the crosshair stops at a position: the block there is known and
/// can be looked at.
pub fn is_target(store: &ChunkStore, blocks: &BlockRegistry, pos: IVec3) -> (b: bool)
    requires
        store.registered(*blocks),
    ensures
        b == (store.block(pos) is Some && blocks.def(store.block(pos)->0).targetable),
{
    match block_at(store, pos) {
        Some(block) => {
            proof {
                lemma_block_registered(*store, *blocks, pos);
            }
            blocks.get(block).targetable
        },
        None => false,
    }
}

/// A block that a store tells is registered where all are.
proof fn lemma_block_registered(store: ChunkStore, blocks: BlockRegistry, pos: IVec3)
    requires
        store.registered(blocks),
        store.block(pos) is Some,
    ensures
        blocks.has(store.block(pos)->0),
{
    if store.layer_exists(pos.chunk_of().y as int) {
        crate::geometry::law_split_recombines(pos);
        assert(blocks.has(store.chunks@[pos.chunk_of()].block(pos.local_of())));
    }
}

/// The block at a position, taken as air where it is not known.
pub open spec fn block_or_air(store: ChunkStore, pos: IVec3) -> BlockId {
    match store.block(pos) {
        Some(block) => block,
        None => BlockId(0),
    }
}

fn seen_block(store: &ChunkStore, pos: IVec3) -> (block: BlockId)
    ensures
        block == block_or_air(*store, pos),
        forall|blocks: BlockRegistry| #[trigger] store.registered(blocks) ==> blocks.has(block),
{
    proof {
        assert forall|blocks: BlockRegistry| #[trigger] store.registered(blocks) implies blocks.has(
            block_or_air(*store, pos),
        ) by {
            if store.block(pos) is Some {
                lemma_block_registered(*store, blocks, pos);
            }
        }
    }
    match block_at(store, pos) {
        Some(block) => block,
        None => BlockId::air(),
    }
}

/// Whether clicks are not meant for the world: the cursor is free, the
/// player is dead, or a screen is just being opened.
pub open spec fn gated(c: Clicks) -> bool {
    !c.grabbed || c.dead || c.escape_pressed || c.inventory_pressed
}

/// The mining that goes on: it starts over where the target changed or the
/// button was let go.
pub open spec fn carried_on(mining: MiningProgress, target: Option<Hit>, c: Clicks) -> MiningProgress {
    let block = match target {
        Some(hit) => Some(hit.block),
        None => None,
    };
    if mining.target != block || !c.left_down {
        idle()
    } else {
        mining
    }
}

/// Whether the player eats what is in hand.
pub open spec fn eats(hands: Hands, c: Clicks) -> bool {
    c.right_pressed && hands.stack() is Some && hands.items.def(hands.stack()->0.item).edible
}

/// The time spent on a block after this frame.
pub open spec fn time_spent(mining: MiningProgress, c: Clicks) -> u64 {
    if mining.elapsed + c.dt > u64::MAX {
        u64::MAX
    } else {
        (mining.elapsed + c.dt) as u64
    }
}

/// Whether the targeted block breaks: in survival once its time is spent,
/// in creative at once on a click.
pub open spec fn breaks(hands: Hands, mining: MiningProgress, c: Clicks) -> bool {
    match hands.mode {
        GameMode::Survival => c.left_down && (c.break_time == 0 || time_spent(mining, c)
            >= c.break_time),
        GameMode::Creative => c.left_down && c.left_pressed,
    }
}

/// The mining after the left button was looked at.
pub open spec fn mining_after(hands: Hands, mining: MiningProgress, hit: Hit, c: Clicks) -> MiningProgress {
    if hands.mode == GameMode::Creative || !c.left_down {
        mining
    } else if breaks(hands, mining, c) {
        idle()
    } else {
        MiningProgress { target: Some(hit.block), elapsed: time_spent(mining, c) }
    }
}

/// Where a block would be placed, and which, if it can be: beside the
/// targeted block, inside the world, where there is air or water, clear of
/// the player, and wheat only on farmland.
pub open spec fn placement(store: ChunkStore, hands: Hands, hit: Hit, c: Clicks) -> Option<
    (IVec3, BlockId),
> {
    let dest = hit.block.shifted(hit.face_normal);
    let known = hands.blocks.known;
    if hit.face_normal == (IVec3 { x: 0, y: 0, z: 0 }) || !(0 <= dest.y < store.height_chunks * 32) {
        None
    } else if store.block(dest) != Some(BlockId(0)) && store.block(dest) != Some(known.water) {
        None
    } else if c.place_blocked || hands.stack() is None {
        None
    } else {
        match hands.items.def(hands.stack()->0.item).places {
            Some(block) => if block == known.wheat_young && store.block(
                IVec3 { y: (dest.y - 1) as i32, ..dest },
            ) != Some(known.farmland) {
                None
            } else {
                Some((dest, block))
            },
            None => None,
        }
    }
}

/// What the right button asks the server for: to till, to open, or to place.
pub open spec fn right_message(store: ChunkStore, hands: Hands, hit: Hit, c: Clicks) -> Option<
    ClientToServer,
> {
    let looked_at = block_or_air(store, hit.block);
    if tillable(hands.blocks.known, looked_at, hit.face_normal, hands.tool()) {
        Some(ClientToServer::TillSoil { pos: hit.block, hotbar: hands.slot() })
    } else if hands.blocks.def(looked_at).interactive {
        Some(ClientToServer::OpenContainer { pos: hit.block })
    } else {
        match placement(store, hands, hit, c) {
            Some(place) => Some(ClientToServer::PlaceBlock { pos: place.0, hotbar: hands.slot() }),
            None => None,
        }
    }
}

/// Whether the right button changes the client's own copy of the world: a
/// block placed in creative mode is shown at once.
pub open spec fn right_edit(store: ChunkStore, hands: Hands, hit: Hit, c: Clicks) -> Option<
    (IVec3, BlockId),
> {
    match right_message(store, hands, hit, c) {
        Some(ClientToServer::PlaceBlock { .. }) => if hands.mode == GameMode::Creative {
            placement(store, hands, hit, c)
        } else {
            None
        },
        _ => None,
    }
}

pub open spec fn as_seq(m: Option<ClientToServer>) -> Seq<ClientToServer> {
    match m {
        Some(m) => seq![m],
        None => Seq::empty(),
    }
}

/// Whether a store got from one state to another by an edit, if there is one.
pub open spec fn edited_if(before: ChunkStore, after: ChunkStore, edit: Option<(IVec3, BlockId)>) -> bool {
    match edit {
        Some(e) => edited(before, after, e.0, e.1),
        None => after == before,
    }
}

/// What the left button does to the client's own copy of the world: in
/// creative mode the block goes at once, in survival the server's answer is
/// awaited.
pub open spec fn left_edit(hands: Hands, mining: MiningProgress, hit: Hit, c: Clicks) -> Option<
    (IVec3, BlockId),
> {
    if hands.mode == GameMode::Creative && breaks(hands, mining, c) {
        Some((hit.block, BlockId(0)))
    } else {
        None
    }
}

/// What the left button asks the server for.
pub open spec fn left_message(hands: Hands, mining: MiningProgress, hit: Hit, c: Clicks) -> Option<
    ClientToServer,
> {
    if breaks(hands, mining, c) {
        Some(ClientToServer::BreakBlock { pos: hit.block, hotbar: hands.slot() })
    } else {
        None
    }
}

/// Turns the clicks of a frame into messages to the server and, in creative
/// mode, into edits of the client's own copy of the world.
pub fn handle_mining_and_placing(
    mining: &mut MiningProgress,
    store: &mut ChunkStore,
    hands: Hands,
    target: Option<Hit>,
    clicks: Clicks,
) -> (messages: Vec<ClientToServer>)
    requires
        hands.wf(),
        old(store).registered(*hands.blocks),
        target is Some ==> target->0.block.can_shift(target->0.face_normal),
    ensures
        if gated(clicks) {
            &&& messages@.len() == 0
            &&& *final(mining) == idle()
            &&& *final(store) == *old(store)
        } else {
            let going = carried_on(*old(mining), target, clicks);
            if eats(hands, clicks) {
                &&& messages@ == seq![ClientToServer::Eat { hotbar: hands.slot() }]
                &&& *final(mining) == going
                &&& *final(store) == *old(store)
            } else if target is None {
                &&& messages@.len() == 0
                &&& *final(mining) == going
                &&& *final(store) == *old(store)
            } else {
                let hit = target->0;
                &&& *final(mining) == mining_after(hands, going, hit, clicks)
                &&& exists|mid: ChunkStore|
                    {
                        &&& #[trigger] edited_if(
                            *old(store),
                            mid,
                            left_edit(hands, going, hit, clicks),
                        )
                        &&& if clicks.right_pressed {
                            &&& edited_if(mid, *final(store), right_edit(mid, hands, hit, clicks))
                            &&& messages@ == as_seq(left_message(hands, going, hit, clicks)) + as_seq(
                                right_message(mid, hands, hit, clicks),
                            )
                        } else {
                            &&& *final(store) == mid
                            &&& messages@ == as_seq(left_message(hands, going, hit, clicks))
                        }
                    }
            }
        },
{
    let mut messages: Vec<ClientToServer> = Vec::new();
    if !clicks.grabbed || clicks.dead || clicks.escape_pressed || clicks.inventory_pressed {
        *mining = MiningProgress::default();
        return messages;
    }
    let same_target = match (mining.target, target) {
        (Some(mined), Some(hit)) => mined == hit.block,
        (None, None) => true,
        _ => false,
    };
    if !same_target || !clicks.left_down {
        *mining = MiningProgress::default();
    }
    let ghost going = *mining;
    let stack = hands.hotbar.selected_stack(hands.main);
    let slot: u8 = hands.hotbar.selected as u8;
    let edible = match stack {
        Some(s) => hands.items.get(s.item).edible,
        None => false,
    };
    if clicks.right_pressed && edible {
        messages.push(ClientToServer::Eat { hotbar: slot });
        assert(messages@ =~= seq![ClientToServer::Eat { hotbar: slot }]);
        return messages;
    }
    match target {
        None => messages,
        Some(hit) => {
            if clicks.left_down {
                match hands.mode {
                    GameMode::Survival => {
                        let spent: u64 = mining.elapsed.saturating_add(clicks.dt);
                        if clicks.break_time == 0 || spent >= clicks.break_time {
                            messages.push(
                                ClientToServer::BreakBlock { pos: hit.block, hotbar: slot },
                            );
                            *mining = MiningProgress::default();
                        } else {
                            mining.target = Some(hit.block);
                            mining.elapsed = spent;
                        }
                    },
                    GameMode::Creative => {
                        if clicks.left_pressed {
                            set_block(store, hit.block, BlockId::air());
                            messages.push(
                                ClientToServer::BreakBlock { pos: hit.block, hotbar: slot },
                            );
                        }
                    },
                }
            }
            let ghost mid = *store;
            assert(messages@ =~= as_seq(left_message(hands, going, hit, clicks)));
            assert(edited_if(*old(store), mid, left_edit(hands, going, hit, clicks)));
            if clicks.right_pressed {
                assert(store.registered(*hands.blocks));
                match use_block(store, hands, hit, clicks) {
                    Some(m) => {
                        messages.push(m);
                    },
                    None => {},
                }
                assert(messages@ =~= as_seq(left_message(hands, going, hit, clicks)) + as_seq(
                    right_message(mid, hands, hit, clicks),
                ));
            }
            messages
        },
    }
}

/// Tills, opens or places.
fn use_block(store: &mut ChunkStore, hands: Hands, hit: Hit, clicks: Clicks) -> (message: Option<
    ClientToServer,
>)
    requires
        hands.wf(),
        old(store).registered(*hands.blocks),
        hit.block.can_shift(hit.face_normal),
    ensures
        message == right_message(*old(store), hands, hit, clicks),
        edited_if(*old(store), *final(store), right_edit(*old(store), hands, hit, clicks)),
{
    let looked_at = seen_block(store, hit.block);
    let slot: u8 = hands.hotbar.selected as u8;
    let stack = hands.hotbar.selected_stack(hands.main);
    let tool = held_tool(stack, hands.items);
    if can_till(&hands.blocks.known, looked_at, hit.face_normal, tool) {
        Some(ClientToServer::TillSoil { pos: hit.block, hotbar: slot })
    } else if hands.blocks.get(looked_at).interactive {
        Some(ClientToServer::OpenContainer { pos: hit.block })
    } else {
        match find_placement(store, hands, hit, clicks) {
            Some((dest, block)) => {
                match hands.mode {
                    GameMode::Creative => {
                        set_block(store, dest, block);
                    },
                    GameMode::Survival => {},
                }
                Some(ClientToServer::PlaceBlock { pos: dest, hotbar: slot })
            },
            None => None,
        }
    }
}

/// Where a block would be placed, and which, if it can be.
pub fn find_placement(store: &ChunkStore, hands: Hands, hit: Hit, clicks: Clicks) -> (place: Option<
    (IVec3, BlockId),
>)
    requires
        hands.wf(),
        hit.block.can_shift(hit.face_normal),
    ensures
        place == placement(*store, hands, hit, clicks),
{
    let n = hit.face_normal;
    if n.x == 0 && n.y == 0 && n.z == 0 {
        return None;
    }
    let dest = hit.block.shift(n);
    if dest.y < 0 || dest.y as i64 >= store.height_chunks as i64 * 32 {
        return None;
    }
    let known = hands.blocks.known;
    match block_at(store, dest) {
        Some(existing) => {
            if !(existing.is_air() || existing == known.water) {
                return None;
            }
        },
        None => {
            return None;
        },
    }
    if clicks.place_blocked {
        return None;
    }
    match hands.hotbar.selected_stack(hands.main) {
        None => None,
        Some(stack) => match hands.items.places(stack.item) {
            None => None,
            Some(block) => {
                if block == known.wheat_young {
                    let below = block_at(store, IVec3 { x: dest.x, y: dest.y - 1, z: dest.z });
                    let farmland = match below {
                        Some(b) => b == known.farmland,
                        None => false,
                    };
                    if !farmland {
                        return None;
                    }
                }
                Some((dest, block))
            },
        },
    }
}

/// In survival no click changes the client's own copy of the world: only the
/// server does.
pub proof fn law_survival_predicts_nothing(
    store: ChunkStore,
    hands: Hands,
    mining: MiningProgress,
    hit: Hit,
    c: Clicks,
)
    requires
        hands.mode == GameMode::Survival,
    ensures
        left_edit(hands, mining, hit, c) is None,
        right_edit(store, hands, hit, c) is None,
{
}

/// Holding the button on a block breaks it in exactly the frame in which the
/// time spent reaches its break time, and then mining starts over.
pub proof fn law_mining_takes_its_time(hands: Hands, mining: MiningProgress, hit: Hit, c: Clicks)
    requires
        hands.mode == GameMode::Survival,
        c.left_down,
        c.break_time > 0,
        mining.elapsed + c.dt <= u64::MAX,
    ensures
        breaks(hands, mining, c) == (mining.elapsed + c.dt >= c.break_time),
        breaks(hands, mining, c) ==> mining_after(hands, mining, hit, c) == idle(),
        !breaks(hands, mining, c) ==> mining_after(hands, mining, hit, c).elapsed == mining.elapsed
            + c.dt,
{
}

/// A block goes beside the targeted one, on the side that is looked at,
/// whichever of the six it is: exactly where that cell is inside the world and
/// holds air or water, the player is not in it, and the stack in hand places
/// a block; young wheat only if there is farmland below.
pub proof fn law_blocks_go_beside_the_target(store: ChunkStore, hands: Hands, hit: Hit, c: Clicks)
    requires
        hit.block.can_shift(hit.face_normal),
    ensures
        ({
            let x = hit.block.x + hit.face_normal.x;
            let y = hit.block.y + hit.face_normal.y;
            let z = hit.block.z + hit.face_normal.z;
            let there = store.block(IVec3 { x: x as i32, y: y as i32, z: z as i32 });
            let below = store.block(IVec3 { x: x as i32, y: (y - 1) as i32, z: z as i32 });
            let known = hands.blocks.known;
            let slot = hands.hotbar.selected as int;
            let holds_a_block = slot < hands.main@.len() && hands.main@[slot] is Some
                && hands.items.defs@[hands.main@[slot]->0.item.0 as int].places is Some;
            let held = hands.items.defs@[hands.main@[slot]->0.item.0 as int].places->0;
            let free = 0 <= y && y < 32 * store.height_chunks && (there == Some(BlockId(0))
                || there == Some(known.water)) && !c.place_blocked;
            let looked_at = hit.face_normal.x != 0 || hit.face_normal.y != 0 || hit.face_normal.z
                != 0;
            let ripe = held != known.wheat_young || below == Some(known.farmland);
            placement(store, hands, hit, c) == if looked_at && free && holds_a_block && ripe {
                Some((IVec3 { x: x as i32, y: y as i32, z: z as i32 }, held))
            } else {
                None
            }
        }),
{
}

/// The right button tills the top of grass or dirt with a shovel, opens what
/// can be opened, and else places what is in hand, all with the selected slot;
/// a block that can be placed is always placed.
pub proof fn law_right_click_uses_the_target(store: ChunkStore, hands: Hands, hit: Hit, c: Clicks)
    ensures
        ({
            let slot = hands.hotbar.selected as int;
            let block = match store.block(hit.block) {
                Some(b) => b,
                None => BlockId(0),
            };
            let known = hands.blocks.known;
            let shovel = slot < hands.main@.len() && hands.main@[slot] is Some && (
            hands.items.defs@[hands.main@[slot]->0.item.0 as int].tool matches Some(t) && t.kind
                == ToolKind::Shovel);
            let tills = hit.face_normal.x == 0 && hit.face_normal.y == 1 && hit.face_normal.z == 0
                && (block == known.grass || block == known.dirt) && shovel;
            let opens = !tills && hands.blocks.defs@[block.0 as int].interactive;
            let msg = right_message(store, hands, hit, c);
            &&& tills ==> msg == Some(
                ClientToServer::TillSoil { pos: hit.block, hotbar: hands.hotbar.selected as u8 },
            )
            &&& opens ==> msg == Some(ClientToServer::OpenContainer { pos: hit.block })
            &&& !tills && !opens ==> match placement(store, hands, hit, c) {
                Some((pos, _)) => msg == Some(
                    ClientToServer::PlaceBlock { pos, hotbar: hands.hotbar.selected as u8 },
                ),
                None => msg is None,
            }
            &&& right_edit(store, hands, hit, c) == if !tills && !opens && hands.mode
                == GameMode::Creative {
                placement(store, hands, hit, c)
            } else {
                None
            }
        }),
{
}

/// Food in the selected slot is eaten on a right click, and nothing else is.
pub proof fn law_only_food_is_eaten(hands: Hands, c: Clicks)
    ensures
        ({
            let slot = hands.hotbar.selected as int;
            eats(hands, c) <==> c.right_pressed && slot < hands.main@.len() && hands.main@[slot]
                is Some && hands.items.defs@[hands.main@[slot]->0.item.0 as int].edible
        }),
{
}

/// In creative mode a click breaks the block at once, holding the button does
/// not, and the block is gone for the player right away; in survival it breaks
/// when the time held reaches its break time, and only the server removes it.
/// Either way the server is told, with the slot in hand.
pub proof fn law_left_click_breaks(hands: Hands, mining: MiningProgress, hit: Hit, c: Clicks)
    ensures
        ({
            let broken = if hands.mode == GameMode::Creative {
                c.left_down && c.left_pressed
            } else {
                c.left_down && (c.break_time == 0 || mining.elapsed + c.dt >= c.break_time)
            };
            &&& left_message(hands, mining, hit, c) == if broken {
                Some(
                    ClientToServer::BreakBlock {
                        pos: hit.block,
                        hotbar: hands.hotbar.selected as u8,
                    },
                )
            } else {
                None
            }
            &&& left_edit(hands, mining, hit, c) == if broken && hands.mode == GameMode::Creative {
                Some((hit.block, BlockId(0)))
            } else {
                None
            }
            &&& hands.mode == GameMode::Survival && c.left_down && !broken ==> {
                &&& mining_after(hands, mining, hit, c).target == Some(hit.block)
                &&& mining_after(hands, mining, hit, c).elapsed == mining.elapsed + c.dt
            }
            &&& hands.mode == GameMode::Survival && broken ==> {
                &&& mining_after(hands, mining, hit, c).target is None
                &&& mining_after(hands, mining, hit, c).elapsed == 0
            }
            &&& hands.mode == GameMode::Creative || !c.left_down ==> mining_after(
                hands,
                mining,
                hit,
                c,
            ) == mining
        }),
{
}

/// Mining goes on while the same block is looked at and the button is held;
/// another block, or letting go, starts it over. Clicks count only while the
/// game has the cursor, the player lives and no screen is being opened.
pub proof fn law_mining_goes_on(mining: MiningProgress, target: Option<Hit>, c: Clicks)
    ensures
        ({
            let same = match (mining.target, target) {
                (Some(mined), Some(hit)) => mined == hit.block,
                (None, None) => true,
                _ => false,
            };
            &&& same && c.left_down ==> carried_on(mining, target, c) == mining
            &&& !same || !c.left_down ==> {
                &&& carried_on(mining, target, c).target is None
                &&& carried_on(mining, target, c).elapsed == 0
            }
            &&& gated(c) <==> !(c.grabbed && !c.dead && !c.escape_pressed && !c.inventory_pressed)
        }),
{
}

/// The block whose progress is shown, and the time spent on it: only in
/// survival, and only while something is being mined.
pub fn shown_progress(mode: GameMode, mining: &MiningProgress) -> (shown: Option<(IVec3, u64)>)
    ensures
        shown == match mining.target {
            Some(target) => if mode == GameMode::Survival {
                Some((target, mining.elapsed))
            } else {
                None
            },
            None => None,
        },
{
    match (mode, mining.target) {
        (GameMode::Survival, Some(target)) => Some((target, mining.elapsed)),
        _ => None,
    }
}

/// Whether the item at a place is the first tool of the given kind and tier.
pub open spec fn first_tool(items: ItemRegistry, kind: ToolKind, tier: ToolTier, n: int) -> bool {
    &&& 1 <= n < items.defs@.len()
    &&& is_tool(items, kind, tier, n)
    &&& forall|m: int| 1 <= m < n ==> !(#[trigger] is_tool(items, kind, tier, m))
}

pub open spec fn is_tool(items: ItemRegistry, kind: ToolKind, tier: ToolTier, n: int) -> bool {
    match items.defs@[n].tool {
        Some(t) => t.kind == kind && t.tier == tier,
        None => false,
    }
}

/// The first item that is a tool of the given kind and tier, if there is one.
pub fn tool_for(items: &ItemRegistry, kind: ToolKind, tier: ToolTier) -> (id: Option<usize>)
    ensures
        match id {
            Some(n) => first_tool(*items, kind, tier, n as int),
            None => forall|m: int|
                1 <= m < items.defs@.len() ==> !(#[trigger] is_tool(*items, kind, tier, m)),
        },
{
    let mut n: usize = 1;
    while n < items.defs.len()
        invariant
            1 <= n,
            forall|m: int| 1 <= m < n ==> !(#[trigger] is_tool(*items, kind, tier, m)),
        decreases items.defs@.len() - n,
    {
        match items.defs[n].tool {
            Some(t) => {
                if t.kind == kind && t.tier == tier {
                    assert(is_tool(*items, kind, tier, n as int));
                    return Some(n);
                }
            },
            None => {},
        }
        assert(!is_tool(*items, kind, tier, n as int));
        n += 1;
    }
    None
}

/// What a block needs to be harvested, in words: "Needs a" and the name of
/// the tool. `None` where the tool in hand will do, where the block needs
/// none, and where there is no such tool.
pub fn missing_tool_text(items: &ItemRegistry, block: &BlockDef, can_harvest: bool) -> (text: Option<
    String,
>)
    ensures
        match text {
            Some(t) => {
                &&& !can_harvest
                &&& block.harvest_tier is Some
                &&& block.tool is Some
                &&& exists|n: int| #[trigger]
                    first_tool(*items, block.tool->0, block.harvest_tier->0, n) && t@
                        == "Needs a "@ + spaced_name(items.defs@[n].name@)
            },
            None => can_harvest || block.harvest_tier is None || block.tool is None || forall|m: int|
                1 <= m < items.defs@.len() ==> !(#[trigger] is_tool(
                    *items,
                    block.tool->0,
                    block.harvest_tier->0,
                    m,
                )),
        },
{
    if can_harvest {
        return None;
    }
    match (block.harvest_tier, block.tool) {
        (Some(tier), Some(kind)) => match tool_for(items, kind, tier) {
            Some(n) => {
                let name = spaced(items.defs[n].name.as_str());
                assert(first_tool(*items, block.tool->0, block.harvest_tier->0, n as int));
                Some(joined("Needs a ", name.as_str()))
            },
            None => None,
        },
        _ => None,
    }
}

/// The tool that is named is one of the kind and tier that the block needs,
/// and no item before it is; the item with number zero never counts.
pub proof fn law_the_first_tool_is_named(
    items: ItemRegistry,
    kind: ToolKind,
    tier: ToolTier,
    n: int,
    m: int,
)
    requires
        first_tool(items, kind, tier, n),
        1 <= m <= n,
    ensures
        1 <= n < items.defs@.len(),
        items.defs@[m].tool is Some && items.defs@[m].tool->0.kind == kind
            && items.defs@[m].tool->0.tier == tier <==> m == n,
{
    assert(is_tool(items, kind, tier, m) <==> m == n);
}

/// The hand holds what lies in the selected slot, and the server is told of
/// that slot; a tool in hand is the one that the item there is.
pub proof fn law_the_hand_holds_the_selected_slot(hands: Hands)
    requires
        hands.hotbar.selected < 9,
    ensures
        ({
            let n = hands.hotbar.selected as int;
            &&& n < hands.main@.len() ==> hands.stack() == hands.main@[n]
            &&& n >= hands.main@.len() ==> hands.stack() is None
            &&& hands.slot() == n
            &&& n < hands.main@.len() && hands.main@[n] is Some ==> hands.tool()
                == hands.items.defs@[hands.main@[n]->0.item.0 as int].tool
            &&& hands.stack() is None ==> hands.tool() is None
        }),
        idle().target is None && idle().elapsed == 0,
{
}

} // verus!

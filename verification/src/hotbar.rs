//! Selection in the hotbar, and the name that a new selection shows.

use crate::item::{ItemId, ItemStack};
use crate::protocol::HOTBAR_SIZE;
use vstd::prelude::*;

verus! {

/// How long the name of a newly selected item is shown: 2.5 s.
pub const ITEM_NAME_NANOS: u64 = 2_500_000_000;

/// The end of that time, in which the name fades: 0.5 s.
pub const ITEM_NAME_FADE_NANOS: u64 = 500_000_000;

/// The selected slot.
#[derive(Clone, Copy, Debug, PartialEq, Eq, Structural)]
pub struct Hotbar {
    pub selected: usize,
}

/// What a slot holds; nothing past the end.
pub open spec fn slot_of(slots: Seq<Option<ItemStack>>, n: int) -> Option<ItemStack> {
    if 0 <= n < slots.len() {
        slots[n]
    } else {
        None
    }
}

/// What a slot holds; nothing past the end.
pub fn slot_at(slots: &Vec<Option<ItemStack>>, n: usize) -> (stack: Option<ItemStack>)
    ensures
        stack == slot_of(slots@, n as int),
{
    if n < slots.len() {
        slots[n]
    } else {
        None
    }
}

/// Which way the mouse wheel turned.
#[derive(Clone, Copy, Debug, PartialEq, Eq, Structural)]
pub enum Scroll {
    Up,
    Down,
    Still,
}

/// The slot that is selected after the wheel turned: up goes to the one
/// before, down to the next, around at the ends.
pub open spec fn scrolled(selected: int, scroll: Scroll) -> int {
    match scroll {
        Scroll::Up => (selected + 8) % 9,
        Scroll::Down => (selected + 1) % 9,
        Scroll::Still => selected,
    }
}

/// The slot that is selected after number keys were pressed: the last of
/// them, in the order of the keys.
pub open spec fn keyed_slot(selected: int, pressed: Seq<bool>) -> int
    decreases pressed.len(),
{
    if pressed.len() == 0 {
        selected
    } else if pressed.last() {
        pressed.len() - 1
    } else {
        keyed_slot(selected, pressed.drop_last())
    }
}

proof fn lemma_keyed_slot(selected: int, pressed: Seq<bool>)
    ensures
        keyed_slot(selected, pressed) == selected || 0 <= keyed_slot(selected, pressed)
            < pressed.len(),
    decreases pressed.len(),
{
    if pressed.len() > 0 && !pressed.last() {
        lemma_keyed_slot(selected, pressed.drop_last());
    }
}

/// Turning the wheel one way and back selects the same slot again.
pub proof fn law_scroll_back(selected: int)
    requires
        0 <= selected < 9,
    ensures
        scrolled(scrolled(selected, Scroll::Up), Scroll::Down) == selected,
        scrolled(scrolled(selected, Scroll::Down), Scroll::Up) == selected,
{
}

impl Default for Hotbar {
    fn default() -> (h: Hotbar)
        ensures
            h == (Hotbar { selected: 0 }),
    {
        Hotbar { selected: 0 }
    }
}

impl Hotbar {
    /// The selected stack, if any.
    pub fn selected_stack(&self, main: &Vec<Option<ItemStack>>) -> (stack: Option<ItemStack>)
        ensures
            stack == slot_of(main@, self.selected as int),
    {
        slot_at(main, self.selected)
    }

    /// Selects by number keys, then by the mouse wheel.
    pub fn handle_selection(&mut self, pressed: &[bool; 9], scroll: Scroll)
        requires
            old(self).selected < HOTBAR_SIZE,
        ensures
            final(self).selected == scrolled(
                keyed_slot(old(self).selected as int, pressed@),
                scroll,
            ),
            final(self).selected < HOTBAR_SIZE,
    {
        let ghost before = self.selected as int;
        let mut n: usize = 0;
        assert(pressed@.take(0) =~= Seq::<bool>::empty());
        while n < 9
            invariant
                n <= 9,
                self.selected < 9,
                self.selected == keyed_slot(before, pressed@.take(n as int)),
            decreases 9 - n,
        {
            proof {
                let upto = pressed@.take(n + 1);
                assert(upto.drop_last() =~= pressed@.take(n as int));
                assert(upto.last() == pressed@[n as int]);
            }
            if pressed[n] {
                self.selected = n;
            }
            n += 1;
        }
        assert(pressed@.take(9) =~= pressed@);
        match scroll {
            Scroll::Up => {
                self.selected = (self.selected + HOTBAR_SIZE - 1) % HOTBAR_SIZE;
            },
            Scroll::Down => {
                self.selected = (self.selected + 1) % HOTBAR_SIZE;
            },
            Scroll::Still => {},
        }
    }
}

/// A selected slot and the item in it.
#[derive(Clone, Copy, Debug, PartialEq, Eq, Structural)]
pub struct Selection {
    pub slot: usize,
    pub item: ItemId,
}

/// The notice with the name of the selected item.
#[derive(Clone, Copy, Debug, PartialEq, Eq, Structural)]
pub struct SelectedItemNotice {
    pub selection: Option<Selection>,
    /// Nanoseconds that it is still shown.
    pub remaining: u64,
}

/// How the notice looks.
#[derive(Clone, Copy, Debug, PartialEq, Eq, Structural)]
pub struct NoticeLook {
    pub visible: bool,
    /// The item to name; no text without one.
    pub item: Option<ItemId>,
    /// Opacity, of `ITEM_NAME_FADE_NANOS`.
    pub opacity: u64,
}

/// What is selected, for the notice: nothing while the player is dead.
pub open spec fn selection_of(hotbar: Hotbar, main: Seq<Option<ItemStack>>, dead: bool) -> Option<
    Selection,
> {
    match slot_of(main, hotbar.selected as int) {
        Some(stack) => if dead {
            None
        } else {
            Some(Selection { slot: hotbar.selected, item: stack.item })
        },
        None => None,
    }
}

/// The notice after a frame of `dt` nanoseconds: a new slot or item starts
/// the time again; otherwise it runs while the game is played.
pub open spec fn notice_after(
    before: SelectedItemNotice,
    selection: Option<Selection>,
    playing: bool,
    dt: u64,
) -> SelectedItemNotice {
    if before.selection != selection {
        SelectedItemNotice {
            selection,
            remaining: if selection is Some {
                ITEM_NAME_NANOS
            } else {
                0
            },
        }
    } else if playing {
        SelectedItemNotice {
            selection,
            remaining: if before.remaining > dt {
                (before.remaining - dt) as u64
            } else {
                0
            },
        }
    } else {
        before
    }
}

/// How a notice looks: hidden outside the game and once its time is over.
pub open spec fn look_of(notice: SelectedItemNotice, playing: bool) -> NoticeLook {
    NoticeLook {
        visible: playing && notice.selection is Some && notice.remaining > 0,
        item: match notice.selection {
            Some(s) => Some(s.item),
            None => None,
        },
        opacity: if notice.remaining < ITEM_NAME_FADE_NANOS {
            notice.remaining
        } else {
            ITEM_NAME_FADE_NANOS
        },
    }
}

impl Default for SelectedItemNotice {
    fn default() -> (n: SelectedItemNotice)
        ensures
            n == (SelectedItemNotice { selection: None, remaining: 0 }),
    {
        SelectedItemNotice { selection: None, remaining: 0 }
    }
}

impl SelectedItemNotice {
    /// Brings the notice up to date after a frame of `dt` nanoseconds.
    pub fn update(
        &mut self,
        hotbar: Hotbar,
        main: &Vec<Option<ItemStack>>,
        dead: bool,
        playing: bool,
        dt: u64,
    ) -> (look: NoticeLook)
        ensures
            *final(self) == notice_after(
                *old(self),
                selection_of(hotbar, main@, dead),
                playing,
                dt,
            ),
            look == look_of(*final(self), playing),
    {
        let selection = match hotbar.selected_stack(main) {
            Some(stack) => {
                if dead {
                    None
                } else {
                    Some(Selection { slot: hotbar.selected, item: stack.item })
                }
            },
            None => None,
        };
        let same = match (self.selection, selection) {
            (Some(a), Some(b)) => a == b,
            (None, None) => true,
            _ => false,
        };
        if !same {
            self.selection = selection;
            self.remaining = if selection.is_some() { ITEM_NAME_NANOS } else { 0 };
        } else if playing {
            self.remaining = if self.remaining > dt { self.remaining - dt } else { 0 };
        }
        NoticeLook {
            visible: playing && self.selection.is_some() && self.remaining > 0,
            item: match self.selection {
                Some(s) => Some(s.item),
                None => None,
            },
            opacity: if self.remaining < ITEM_NAME_FADE_NANOS {
                self.remaining
            } else {
                ITEM_NAME_FADE_NANOS
            },
        }
    }
}

/// Neither the number of items in the selected slot nor their wear starts
/// the notice again.
pub proof fn law_notice_ignores_count_and_wear(
    hotbar: Hotbar,
    main: Seq<Option<ItemStack>>,
    count: u32,
    damage: u16,
    dead: bool,
)
    requires
        slot_of(main, hotbar.selected as int) is Some,
    ensures
        ({
            let stack = slot_of(main, hotbar.selected as int)->0;
            let changed = main.update(
                hotbar.selected as int,
                Some(ItemStack { count, damage, ..stack }),
            );
            selection_of(hotbar, changed, dead) == selection_of(hotbar, main, dead)
        }),
{
}

/// The wheel selects the next slot, or the one before, around at the ends.
pub proof fn law_the_wheel_goes_around(selected: int)
    requires
        0 <= selected < 9,
    ensures
        scrolled(selected, Scroll::Down) == if selected == 8 {
            0
        } else {
            selected + 1
        },
        scrolled(selected, Scroll::Up) == if selected == 0 {
            8
        } else {
            selected - 1
        },
        scrolled(selected, Scroll::Still) == selected,
{
}

/// A number key selects its own slot; of several the last one counts, and
/// without any the selection stays.
pub proof fn law_number_keys_select(selected: int, pressed: Seq<bool>, n: int)
    requires
        0 <= n < pressed.len(),
    ensures
        pressed[n] && (forall|k: int| n < k < pressed.len() ==> !#[trigger] pressed[k])
            ==> keyed_slot(selected, pressed) == n,
        (forall|k: int| 0 <= k < pressed.len() ==> !#[trigger] pressed[k]) ==> keyed_slot(
            selected,
            pressed,
        ) == selected,
    decreases pressed.len(),
{
    let rest = pressed.drop_last();
    if rest.len() > 0 {
        law_number_keys_select(
            selected,
            rest,
            if n < rest.len() {
                n
            } else {
                0
            },
        );
    }
    assert forall|k: int| 0 <= k < rest.len() implies rest[k] == pressed[k] by {}
    assert(pressed[pressed.len() - 1] == pressed.last());
    assert(rest.len() == 0 ==> keyed_slot(selected, rest) == selected);
}

/// Selecting another slot or item names it for two and a half seconds of play,
/// fading over the last half second. Nothing is named for a dead player or an
/// empty slot, and the time stands still while the game is paused.
pub proof fn law_the_notice_runs_out(
    before: SelectedItemNotice,
    hotbar: Hotbar,
    main: Seq<Option<ItemStack>>,
    dead: bool,
    playing: bool,
    dt: u64,
)
    ensures
        ({
            let n = hotbar.selected as int;
            let held = n < main.len() && main[n] is Some && !dead;
            let selection = selection_of(hotbar, main, dead);
            let after = notice_after(before, selection, playing, dt);
            let look = look_of(after, playing);
            &&& held ==> selection is Some && selection->0.slot == hotbar.selected
                && selection->0.item == main[n]->0.item
            &&& !held ==> selection is None
            &&& after.selection == selection
            &&& before.selection != selection && held ==> after.remaining == 2_500_000_000
            &&& before.selection != selection && !held ==> after.remaining == 0
            &&& before.selection == selection && !playing ==> after.remaining == before.remaining
            &&& before.selection == selection && playing ==> after.remaining == (if before.remaining
                > dt {
                before.remaining - dt
            } else {
                0
            })
            &&& look.visible <==> playing && held && after.remaining > 0
            &&& held ==> look.item == Some(main[n]->0.item)
            &&& !held ==> look.item is None
            &&& look.opacity == if after.remaining >= 500_000_000 {
                500_000_000
            } else {
                after.remaining
            }
        }),
{
}

} // verus!

//! The footer picker band.
//!
//! Menus render between the composer and the status row:
//!
//! ```text
//!   ── divider ─────────────────────────────
//!   Commands 7 · Type to filter          1–6
//!
//!     /login   sign in to a provider
//!     /model   list or switch models       ← selected row filled, no caret
//!   ── divider ─────────────────────────────
//!   ↑↓ Navigate     Enter Use     Esc Close   (rides the status row)
//! ```
//!
//! The model pickers brighten the selected row (bold ink), the rest fill it; unselected rows
//! stay dim, no caret either way. The band holds only its rows: at most [`MAX_VISIBLE`],
//! shrinking with a short match list instead of blank-padding.
use vstd::prelude::*;
use vstd::string::*;

use crate::text::same_text;
use ranking::{rank, ranks};

pub use super::fuzzy::fuzzy_score;
pub use hint::{degrade_hint, HINT_SCOPED, HINT_USE};

pub mod alignment;
pub mod band;
pub mod hint;
pub mod picture;
pub mod ranking;

verus! {

/// One thing to pick.
pub struct MenuItem {
    pub label: String,
    pub description: String,
    /// Right-aligned dim metadata.
    pub meta: String,
    pub value: String,
}

impl MenuItem {
    /// An item without metadata.
    pub fn new(label: &str, description: &str, value: &str) -> (item: Self)
        ensures
            item.label@ == label@,
            item.description@ == description@,
            item.meta@ == Seq::<char>::empty(),
            item.value@ == value@,
    {
        MenuItem {
            label: label.to_owned(),
            description: description.to_owned(),
            meta: String::new(),
            value: value.to_owned(),
        }
    }
}

impl Clone for MenuItem {
    fn clone(&self) -> (copy: Self)
        ensures
            copy.label@ == self.label@,
            copy.description@ == self.description@,
            copy.meta@ == self.meta@,
            copy.value@ == self.value@,
    {
        MenuItem {
            label: self.label.clone(),
            description: self.description.clone(),
            meta: self.meta.clone(),
            value: self.value.clone(),
        }
    }
}

/// What a menu picks from.
#[derive(Debug, Clone, Copy, PartialEq, Eq, Structural)]
pub enum MenuKind {
    Commands,
    Files,
    Models,
    Sessions,
    Skills,
    /// The scoped-models multi-select: Space toggles, Enter closes.
    Scoped,
    /// /tree: pick an earlier point in this session to rewind to.
    Tree,
}

/// A picker: its items, the ones that the query keeps, and the selection among these.
pub struct Menu {
    pub kind: MenuKind,
    pub title: &'static str,
    pub hint: &'static str,
    items: Vec<MenuItem>,
    filtered: Vec<usize>,
    pub selected: usize,
    window_start: usize,
    query: String,
}

/// What a menu holds.
#[verifier::ext_equal]
pub struct MenuView {
    pub kind: MenuKind,
    pub title: Seq<char>,
    pub hint: Seq<char>,
    pub items: Seq<MenuItem>,
    /// The items that the query keeps, by index, in the order shown.
    pub filtered: Seq<usize>,
    /// The place of the selection in `filtered`.
    pub selected: usize,
    /// The first place in `filtered` that shows.
    pub window_start: usize,
    pub query: Seq<char>,
}

/// How many rows of items show at once.
pub const MAX_VISIBLE: usize = 6;

impl View for Menu {
    type V = MenuView;

    closed spec fn view(&self) -> MenuView {
        MenuView {
            kind: self.kind,
            title: self.title@,
            hint: self.hint@,
            items: self.items@,
            filtered: self.filtered@,
            selected: self.selected,
            window_start: self.window_start,
            query: self.query@,
        }
    }
}

impl MenuView {
    /// Every listed item is there, and a window that has moved is full.
    pub open spec fn wf(self) -> bool {
        &&& forall|k: int|
            0 <= k < self.filtered.len() ==> (#[trigger] self.filtered[k]) < self.items.len()
        &&& self.window_start == 0 || self.window_start + MAX_VISIBLE <= self.filtered.len()
    }

    /// The item at a place of the list.
    pub open spec fn listed(self, place: int) -> MenuItem {
        self.items[self.filtered[place] as int]
    }

    /// Whether the item at a place of the list has this value.
    pub open spec fn has_value(self, place: int, value: Seq<char>) -> bool {
        0 <= place < self.filtered.len() && self.listed(place).value@ == value
    }

    /// Whether the selection is on an item.
    pub open spec fn on_item(self) -> bool {
        self.selected < self.filtered.len()
    }

    /// The menu with the selection `delta` places on, round the ends of the list, and the
    /// window moved as little as shows it.
    pub open spec fn stepped(self, delta: int) -> MenuView {
        if self.filtered.len() == 0 {
            self
        } else {
            let selected = (signed(self.selected) + delta) % (self.filtered.len() as int);
            MenuView {
                selected: selected as usize,
                window_start: follow(self.window_start as int, selected) as usize,
                ..self
            }
        }
    }

    /// Whether the selected row shows.
    pub open spec fn selection_shows(self) -> bool {
        self.window_start <= self.selected < self.window_start + MAX_VISIBLE
    }
}

/// A place as a signed number of the same width: one beyond the signed range is negative.
pub open spec fn signed(n: usize) -> int {
    if n <= isize::MAX {
        n as int
    } else {
        n - usize::MAX - 1
    }
}

/// Where a window that starts at `start` starts once it shows `selected`.
pub open spec fn follow(start: int, selected: int) -> int {
    if selected < start {
        selected
    } else if selected >= start + MAX_VISIBLE {
        selected - MAX_VISIBLE + 1
    } else {
        start
    }
}

/// Whether `i` is one of `n` places.
pub open spec fn within(i: int, n: nat) -> bool {
    0 <= i < n
}

/// A place as a signed number.
fn to_signed(n: usize) -> (s: isize)
    ensures
        s == signed(n),
{
    if n <= isize::MAX as usize {
        n as isize
    } else {
        -((usize::MAX - n) as isize) - 1
    }
}

impl Menu {
    /// A menu of all its items, with the first one selected.
    pub fn new(
        kind: MenuKind,
        title: &'static str,
        hint: &'static str,
        items: Vec<MenuItem>,
    ) -> (menu: Self)
        ensures
            menu@.wf(),
            menu@.kind == kind,
            menu@.title == title@,
            menu@.hint == hint@,
            menu@.items == items@,
            ranks(Seq::empty(), items@, menu@.filtered),
            menu@.selected == 0,
            menu@.window_start == 0,
            menu@.query == Seq::<char>::empty(),
    {
        let mut menu = Menu {
            kind,
            title,
            hint,
            items,
            filtered: Vec::new(),
            selected: 0,
            window_start: 0,
            query: String::new(),
        };
        menu.refilter();
        menu
    }

    /// Lists what the query keeps and selects the first of it.
    fn refilter(&mut self)
        ensures
            final(self)@.wf(),
            ranks(old(self)@.query, old(self)@.items, final(self)@.filtered),
            final(self)@ == (MenuView {
                filtered: final(self)@.filtered,
                selected: 0,
                window_start: 0,
                ..old(self)@
            }),
    {
        self.filtered = rank(self.query.as_str(), &self.items);
        self.selected = 0;
        self.window_start = 0;
    }

    /// Lists what a query keeps and selects the first of it. The query at hand changes nothing.
    pub fn set_query(&mut self, query: &str)
        requires
            old(self)@.wf(),
        ensures
            final(self)@.wf(),
            query@ == old(self)@.query ==> *final(self) == *old(self),
            query@ != old(self)@.query ==> {
                &&& ranks(query@, old(self)@.items, final(self)@.filtered)
                &&& final(self)@ == (MenuView {
                    query: query@,
                    filtered: final(self)@.filtered,
                    selected: 0,
                    window_start: 0,
                    ..old(self)@
                })
            },
    {
        if !same_text(self.query.as_str(), query) {
            self.query = query.to_owned();
            self.refilter();
        }
    }

    /// How many items the query keeps.
    pub fn len(&self) -> (n: usize)
        ensures
            n == self@.filtered.len(),
    {
        self.filtered.len()
    }

    /// Whether the query keeps nothing.
    pub fn is_empty(&self) -> (empty: bool)
        ensures
            empty == (self@.filtered.len() == 0),
    {
        self.filtered.len() == 0
    }

    /// Moves the selection to the first listed item with this value, if there is one.
    pub fn select_value(&mut self, value: &str)
        requires
            old(self)@.wf(),
        ensures
            final(self)@.wf(),
            final(self)@ == (MenuView { selected: final(self)@.selected, ..old(self)@ }),
            (exists|k: int| old(self)@.has_value(k, value@)) ==> {
                &&& old(self)@.has_value(final(self)@.selected as int, value@)
                &&& forall|k: int|
                    0 <= k < final(self)@.selected ==> !old(self)@.has_value(k, value@)
            },
            !(exists|k: int| old(self)@.has_value(k, value@)) ==> *final(self) == *old(self),
            forall|k: int|
                0 <= k < old(self)@.filtered.len() && old(self)@.items[(
                #[trigger] old(self)@.filtered[k]) as int].value@ == value@ ==> {
                    &&& final(self)@.selected <= k
                    &&& old(self)@.items[old(self)@.filtered[final(self)@.selected as int] as int].value@
                        == value@
                },
    {
        let mut k: usize = 0;
        while k < self.filtered.len()
            invariant
                k <= self.filtered@.len(),
                *self == *old(self),
                self@.wf(),
                forall|j: int| 0 <= j < k ==> !self@.has_value(j, value@),
            decreases self.filtered.len() - k,
        {
            let index: usize = self.filtered[k];
            assert(self@.filtered[k as int] < self@.items.len());
            if same_text(self.items[index].value.as_str(), value) {
                assert(old(self)@.has_value(k as int, value@));
                self.selected = k;
                assert forall|j: int|
                    0 <= j < old(self)@.filtered.len() && old(self)@.items[(
                    #[trigger] old(self)@.filtered[j]) as int].value@ == value@ implies k <= j by {
                    assert(old(self)@.has_value(j, value@));
                }
                return;
            }
            k = k + 1;
        }
        assert forall|j: int|
            0 <= j < old(self)@.filtered.len() && old(self)@.items[(
            #[trigger] old(self)@.filtered[j]) as int].value@ == value@ implies false by {
            assert(old(self)@.has_value(j, value@));
        }
    }

    /// Hands every item to `f`, listed or not, in order. The list and the selection stay.
    pub fn for_each_item<F: FnMut(&mut MenuItem)>(&mut self, mut f: F)
        requires
            old(self)@.wf(),
            forall|item: &mut MenuItem|
                old(self)@.items.contains(*item) ==> #[trigger] call_requires(f, (item,)),
        ensures
            final(self)@.wf(),
            final(self)@ == (MenuView { items: final(self)@.items, ..old(self)@ }),
            final(self)@.items.len() == old(self)@.items.len(),
            forall|i: int| #[trigger]
                within(i, old(self)@.items.len()) ==> exists|item: &mut MenuItem|
                    *item == old(self)@.items[i] && *final(item) == final(self)@.items[i]
                        && #[trigger] call_ensures(f, (item,), ()),
    {
        let ghost f0 = f;
        let mut i: usize = 0;
        while i < self.items.len()
            invariant
                i <= self.items@.len(),
                f == f0,
                self.items@.len() == old(self).items@.len(),
                self@ == (MenuView { items: self@.items, ..old(self)@ }),
                forall|item: &mut MenuItem|
                    old(self)@.items.contains(*item) ==> #[trigger] call_requires(f, (item,)),
                forall|j: int|
                    i <= j < self.items@.len() ==> self.items@[j] == old(self).items@[j],
                forall|j: int| #[trigger]
                    within(j, i as nat) ==> exists|item: &mut MenuItem|
                        *item == old(self).items@[j] && *final(item) == self.items@[j]
                            && #[trigger] call_ensures(f, (item,), ()),
            decreases self.items.len() - i,
        {
            let ghost before = self.items@;
            assert(old(self)@.items[i as int] == self.items@[i as int]);
            f(&mut self.items[i]);
            assert(exists|item: &mut MenuItem|
                *item == old(self).items@[i as int] && *final(item) == self.items@[i as int]
                    && #[trigger] call_ensures(f, (item,), ()));
            i = i + 1;
            assert forall|j: int| #[trigger] within(j, i as nat) implies exists|
                item: &mut MenuItem,
            |
                *item == old(self).items@[j] && *final(item) == self.items@[j]
                    && #[trigger] call_ensures(f, (item,), ()) by {
                if j < i - 1 {
                    assert(within(j, (i - 1) as nat));
                    assert(before[j] == self.items@[j]);
                }
            }
        }
    }

    /// The selected item, to change.
    pub fn current_mut(&mut self) -> (current: Option<&mut MenuItem>)
        requires
            old(self)@.wf(),
        ensures
            final(self)@.wf(),
            match current {
                Some(item) => {
                    &&& old(self)@.on_item()
                    &&& *item == old(self)@.listed(old(self)@.selected as int)
                    &&& final(self)@ == (MenuView {
                        items: old(self)@.items.update(
                            old(self)@.filtered[old(self)@.selected as int] as int,
                            *final(item),
                        ),
                        ..old(self)@
                    })
                },
                None => !old(self)@.on_item() && *final(self) == *old(self),
            },
    {
        if self.selected < self.filtered.len() {
            let index: usize = self.filtered[self.selected];
            assert(self@.filtered[self.selected as int] < self@.items.len());
            Some(&mut self.items[index])
        } else {
            None
        }
    }

    /// The selected item.
    pub fn current(&self) -> (current: Option<&MenuItem>)
        requires
            self@.wf(),
        ensures
            match current {
                Some(item) => self@.on_item() && *item == self@.listed(self@.selected as int),
                None => !self@.on_item(),
            },
            current is Some <==> self@.selected < self@.filtered.len(),
            current is Some ==> *current->0
                == self@.items[self@.filtered[self@.selected as int] as int],
    {
        if self.selected < self.filtered.len() {
            let index: usize = self.filtered[self.selected];
            assert(self@.filtered[self.selected as int] < self@.items.len());
            Some(&self.items[index])
        } else {
            None
        }
    }

    /// Moves the selection `delta` places on, round the ends of the list; the window follows.
    pub fn step(&mut self, delta: isize)
        requires
            old(self)@.wf(),
            old(self)@.filtered.len() > 0 ==> isize::MIN <= signed(old(self)@.selected) + delta
                <= isize::MAX,
        ensures
            final(self)@.wf(),
            final(self)@ == old(self)@.stepped(delta as int),
    {
        let n: usize = self.filtered.len();
        if n == 0 {
            return;
        }
        let target: isize = to_signed(self.selected) + delta;
        if target >= 0 {
            self.selected = (target as usize) % n;
        } else {
            let back: usize = (-(target + 1)) as usize;
            proof {
                lemma_back(target as int, n as int);
            }
            self.selected = n - 1 - back % n;
        }
        if self.selected < self.window_start {
            self.window_start = self.selected;
        } else if self.selected - self.window_start >= MAX_VISIBLE {
            self.window_start = self.selected - MAX_VISIBLE + 1;
        }
    }
}

/// The remainder of a negative number, by that of a positive one.
proof fn lemma_back(target: int, n: int)
    requires
        target < 0,
        n > 0,
    ensures
        target % n == n - 1 - (-(target + 1)) % n,
{
    let back = -(target + 1);
    let q = back / n;
    let r = back % n;
    vstd::arithmetic::div_mod::lemma_fundamental_div_mod(back, n);
    vstd::arithmetic::div_mod::lemma_mod_bound(back, n);
    assert(target == n * (-q - 1) + (n - 1 - r)) by (nonlinear_arith)
        requires
            back == -(target + 1),
            back == n * q + r,
    ;
    vstd::arithmetic::div_mod::lemma_fundamental_div_mod_converse(
        target,
        n,
        -q - 1,
        n - 1 - r,
    );
}

/// After a step the selection is on an item, and its row shows.
pub proof fn law_step_shows_the_selection(menu: MenuView, delta: int)
    requires
        menu.wf(),
        menu.filtered.len() > 0,
        menu.filtered.len() <= usize::MAX,
    ensures
        menu.stepped(delta).wf(),
        menu.stepped(delta).on_item(),
        menu.stepped(delta).selection_shows(),
        menu.stepped(delta).filtered == menu.filtered,
        menu.stepped(delta).items == menu.items,
        menu.stepped(delta).query == menu.query,
{
    vstd::arithmetic::div_mod::lemma_mod_bound(
        signed(menu.selected) + delta,
        menu.filtered.len() as int,
    );
}

/// A step that stays in a window that shows the selection leaves the window where it is.
pub proof fn law_step_in_the_window_keeps_it(menu: MenuView, delta: int)
    requires
        menu.wf(),
        menu.filtered.len() > 0,
        menu.filtered.len() <= usize::MAX,
        menu.window_start <= menu.stepped(delta).selected < menu.window_start + MAX_VISIBLE,
    ensures
        menu.stepped(delta).window_start == menu.window_start,
{
    vstd::arithmetic::div_mod::lemma_mod_bound(
        signed(menu.selected) + delta,
        menu.filtered.len() as int,
    );
}

/// Steps add up: two steps select what one of their sum does, so a step back undoes a step and
/// as many single steps as there are items come round.
pub proof fn law_steps_add_up(menu: MenuView, one: int, other: int)
    requires
        menu.on_item(),
        menu.filtered.len() <= isize::MAX,
    ensures
        menu.stepped(one).stepped(other).selected == menu.stepped(one + other).selected,
        menu.stepped(one).stepped(-one).selected == menu.selected,
        menu.stepped(menu.filtered.len() as int).selected == menu.selected,
{
    let n = menu.filtered.len() as int;
    let at = signed(menu.selected);
    let first = (at + one) % n;
    vstd::arithmetic::div_mod::lemma_mod_bound(at + one, n);
    assert(menu.stepped(one).selected == first);
    assert(signed(menu.stepped(one).selected) == first);
    vstd::arithmetic::div_mod::lemma_add_mod_noop(at + one, other, n);
    vstd::arithmetic::div_mod::lemma_add_mod_noop(first, other, n);
    vstd::arithmetic::div_mod::lemma_mod_twice(at + one, n);
    assert((first + other) % n == (at + one + other) % n);
    vstd::arithmetic::div_mod::lemma_add_mod_noop(at + one, -one, n);
    vstd::arithmetic::div_mod::lemma_add_mod_noop(first, -one, n);
    assert((first - one) % n == at % n);
    vstd::arithmetic::div_mod::lemma_small_mod(at as nat, n as nat);
    vstd::arithmetic::div_mod::lemma_mod_add_multiples_vanish(at, n);
    assert((at + n) % n == at % n);
}

/// A step goes on by its delta, less as many whole rounds of the list as it takes. It moves the
/// selection and the window alone, and nothing in an empty list.
pub proof fn law_step_goes_on_by_its_delta(menu: MenuView, delta: int)
    requires
        menu.filtered.len() <= usize::MAX,
    ensures
        menu.filtered.len() == 0 ==> menu.stepped(delta) == menu,
        menu.filtered.len() > 0 ==> {
            &&& menu.stepped(delta).selected < menu.filtered.len()
            &&& menu.selected <= isize::MAX ==> exists|rounds: int|
                menu.selected + delta == #[trigger] (rounds * menu.filtered.len())
                    + menu.stepped(delta).selected
            &&& menu.selected > isize::MAX ==> exists|rounds: int|
                menu.selected - usize::MAX - 1 + delta == #[trigger] (rounds
                    * menu.filtered.len()) + menu.stepped(delta).selected
        },
        menu.stepped(delta).kind == menu.kind,
        menu.stepped(delta).title == menu.title,
        menu.stepped(delta).hint == menu.hint,
        menu.stepped(delta).items == menu.items,
        menu.stepped(delta).filtered == menu.filtered,
        menu.stepped(delta).query == menu.query,
{
    if menu.filtered.len() > 0 {
        let n = menu.filtered.len() as int;
        let target = signed(menu.selected) + delta;
        vstd::arithmetic::div_mod::lemma_mod_bound(target, n);
        vstd::arithmetic::div_mod::lemma_fundamental_div_mod(target, n);
        let rounds = target / n;
        assert(n * rounds == rounds * n) by (nonlinear_arith);
        assert(target == rounds * menu.filtered.len() + menu.stepped(delta).selected);
    }
}

/// After a step six rows from the start of the window on hold the selection, and no window that
/// does so would have moved less.
pub proof fn law_window_moves_no_more_than_needed(menu: MenuView, delta: int, start: int)
    requires
        menu.wf(),
        menu.filtered.len() > 0,
        menu.filtered.len() <= usize::MAX,
        start <= menu.stepped(delta).selected < start + 6,
    ensures
        menu.stepped(delta).window_start <= menu.stepped(delta).selected,
        menu.stepped(delta).selected < menu.stepped(delta).window_start + 6,
        menu.stepped(delta).window_start >= menu.window_start ==> menu.stepped(
            delta,
        ).window_start - menu.window_start <= (if start >= menu.window_start {
            start - menu.window_start
        } else {
            menu.window_start - start
        }),
        menu.stepped(delta).window_start <= menu.window_start ==> menu.window_start
            - menu.stepped(delta).window_start <= (if start >= menu.window_start {
            start - menu.window_start
        } else {
            menu.window_start - start
        }),
{
    vstd::arithmetic::div_mod::lemma_mod_bound(
        signed(menu.selected) + delta,
        menu.filtered.len() as int,
    );
}

/// The selection goes round the ends: down from the last item to the first, and up from the
/// first to the last.
pub proof fn law_steps_go_round(menu: MenuView)
    requires
        menu.on_item(),
        menu.filtered.len() <= isize::MAX,
    ensures
        menu.selected + 1 == menu.filtered.len() ==> menu.stepped(1).selected == 0,
        menu.selected + 1 < menu.filtered.len() ==> menu.stepped(1).selected == menu.selected
            + 1,
        menu.selected == 0 ==> menu.stepped(-1).selected == menu.filtered.len() - 1,
        menu.selected > 0 ==> menu.stepped(-1).selected == menu.selected - 1,
{
    let n = menu.filtered.len() as int;
    let at = menu.selected as int;
    if at + 1 == n {
        vstd::arithmetic::div_mod::lemma_mod_self_0(n);
    } else {
        vstd::arithmetic::div_mod::lemma_small_mod((at + 1) as nat, n as nat);
    }
    if at == 0 {
        lemma_back(-1, n);
        vstd::arithmetic::div_mod::lemma_small_mod(0, n as nat);
    } else {
        vstd::arithmetic::div_mod::lemma_small_mod((at - 1) as nat, n as nat);
    }
}

} // verus!

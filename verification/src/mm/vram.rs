//! Access to video memory through the PRAMIN window, before page tables are set up.
//!
//! The window is a part of BAR0 that shows 1 MiB of video memory. Where in video memory it starts is
//! told by a register, in units of 64 KiB.

use vstd::prelude::*;

use crate::error::Error;

verus! {

/// Where the window starts in BAR0.
pub const PRAMIN_BASE: usize = 0x700000;

/// Size of the window.
pub const PRAMIN_SIZE: usize = 0x100000;

/// What the window position is a multiple of.
pub const WINDOW_UNIT: u64 = 0x1_0000;

/// Number of positions that the window register can hold.
pub const WINDOW_POSITIONS: u64 = 0x100_0000;

/// Numbers that are read and written through the window.
pub trait PraminNum: Sized {
    /// Size of a number in bytes.
    spec fn spec_size() -> nat;

    /// Size of a number in bytes.
    fn size_bytes() -> (size: usize)
        ensures
            size == Self::spec_size(),
            size == 1 || size == 2 || size == 4 || size == 8,
    ;

    /// What the address of a number is a multiple of.
    fn alignment() -> (alignment: usize)
        ensures
            alignment == Self::spec_size(),
    {
        Self::size_bytes()
    }
}

impl PraminNum for u8 {
    open spec fn spec_size() -> nat {
        1
    }

    fn size_bytes() -> (size: usize) {
        1
    }
}

impl PraminNum for u16 {
    open spec fn spec_size() -> nat {
        2
    }

    fn size_bytes() -> (size: usize) {
        2
    }
}

impl PraminNum for u32 {
    open spec fn spec_size() -> nat {
        4
    }

    fn size_bytes() -> (size: usize) {
        4
    }
}

impl PraminNum for u64 {
    open spec fn spec_size() -> nat {
        8
    }

    fn size_bytes() -> (size: usize) {
        8
    }
}

/// The register value that moves the window to `fb_offset`: bits 16 to 39 of the address.
pub open spec fn window_base(fb_offset: int) -> int {
    (fb_offset / WINDOW_UNIT as int) % WINDOW_POSITIONS as int
}

/// The last possible start of a window that shows `addr`.
pub open spec fn window_for(addr: int) -> int {
    addr / WINDOW_UNIT as int * WINDOW_UNIT
}

/// What has to be done next in a transfer.
#[derive(Debug, Clone, Copy, PartialEq, Eq)]
pub enum VramAction {
    /// Read the window register.
    ReadWindow,
    /// Write the window register, with video memory as its target.
    WriteWindow { window_base: u32 },
    /// Transfer item `index` at offset `offset` of BAR0.
    Item { index: usize, offset: usize },
    /// The transfer is over.
    Done(Result<(), Error>),
}

/// What happened when that was done.
#[derive(Debug, Clone, Copy)]
pub enum VramEvent {
    /// The window register was read.
    Window { window_base: u32 },
    /// The window register was written.
    Written,
    /// The item was transferred, or could not be.
    ItemDone(Result<(), Error>),
}

/// Where a transfer stands.
#[derive(Debug, Clone, Copy)]
pub enum VramPhase {
    /// The window may or may not stand where the next item needs it.
    Check,
    /// The window has to be moved.
    Move,
    /// The window has been moved, if the hardware took the new position.
    Confirm,
    /// The items from `first` up to `end` can be reached.
    Items { first: usize, end: usize },
    /// The transfer is over.
    Finished(Result<(), Error>),
}

/// A transfer of consecutive items between the driver and video memory.
#[derive(Debug, Clone, Copy)]
pub struct VramAccess {
    /// Address of the first item in video memory.
    pub fb_offset: u64,
    /// Number of items.
    pub num_items: usize,
    /// Size of an item in bytes.
    pub size: usize,
    /// The next item to transfer; the ones before it have been transferred.
    pub next: usize,
    /// Where the transfer stands.
    pub phase: VramPhase,
}

impl VramAccess {
    /// Address of item `i` in video memory.
    pub open spec fn addr(self, i: int) -> int {
        self.fb_offset + i * self.size
    }

    /// The end of the items that the window for item `first` shows.
    pub open spec fn reach(self, first: int) -> int {
        let shown = (PRAMIN_SIZE - self.addr(first) % WINDOW_UNIT as int) / self.size as int;
        if first + shown < self.num_items {
            first + shown
        } else {
            self.num_items as int
        }
    }

    /// Where item `i` stands in BAR0, with the window for item `first`.
    pub open spec fn bar_offset(self, first: int, i: int) -> int {
        PRAMIN_BASE + self.addr(first) % WINDOW_UNIT as int + (i - first) * self.size
    }

    /// The addresses fit their type, and the transfer is where its phase says. A transfer that
    /// succeeded is complete.
    pub open spec fn wf(self) -> bool {
        &&& self.size == 1 || self.size == 2 || self.size == 4 || self.size == 8
        &&& self.addr(self.num_items as int) <= u64::MAX
        &&& self.next <= self.num_items
        &&& match self.phase {
            VramPhase::Items { first, end } => {
                &&& first <= self.next < end <= self.num_items
                &&& end == self.reach(first as int)
            },
            VramPhase::Finished(r) => r is Ok ==> self.next == self.num_items,
            _ => self.next < self.num_items,
        }
    }

    /// The phase in which the items from the next one on can be reached.
    pub open spec fn reached(self) -> VramPhase {
        VramPhase::Items { first: self.next, end: self.reach(self.next as int) as usize }
    }

    /// Whether `event` is an outcome of what has to be done.
    pub open spec fn answers(self, event: VramEvent) -> bool {
        match self.phase {
            VramPhase::Check => event is Window,
            VramPhase::Move => event is Written,
            VramPhase::Confirm => event is Window,
            VramPhase::Items { .. } => event is ItemDone,
            VramPhase::Finished(_) => false,
        }
    }

    /// The transfer after `event`.
    pub open spec fn after(self, event: VramEvent) -> VramAccess {
        let here = self.addr(self.next as int);
        match (self.phase, event) {
            (VramPhase::Check, VramEvent::Window { window_base }) => VramAccess {
                phase: if window_base * WINDOW_UNIT == window_for(here) {
                    self.reached()
                } else {
                    VramPhase::Move
                },
                ..self
            },
            (VramPhase::Move, VramEvent::Written) => VramAccess {
                phase: VramPhase::Confirm,
                ..self
            },
            (VramPhase::Confirm, VramEvent::Window { window_base: base }) => VramAccess {
                phase: if base == window_base(here) {
                    self.reached()
                } else {
                    VramPhase::Finished(Err(Error::EIO))
                },
                ..self
            },
            (VramPhase::Items { first, end }, VramEvent::ItemDone(r)) => match r {
                Ok(_) => VramAccess {
                    next: (self.next + 1) as usize,
                    phase: if self.next + 1 == self.num_items {
                        VramPhase::Finished(Ok(()))
                    } else if self.next + 1 == end {
                        VramPhase::Check
                    } else {
                        self.phase
                    },
                    ..self
                },
                Err(e) => VramAccess { phase: VramPhase::Finished(Err(e)), ..self },
            },
            _ => self,
        }
    }

    /// A bound on the number of events that the transfer can still take.
    pub open spec fn events_left(self) -> int {
        let items = 4 * (self.num_items - self.next);
        match self.phase {
            VramPhase::Check => items + 4,
            VramPhase::Move => items + 3,
            VramPhase::Confirm => items + 2,
            VramPhase::Items { .. } => items + 1,
            VramPhase::Finished(_) => 0,
        }
    }

    /// The address of the next item in video memory.
    fn here(&self) -> (addr: u64)
        requires
            self.wf(),
        ensures
            addr == self.addr(self.next as int),
    {
        proof {
            lemma_addr_monotone(*self, self.next as int, self.num_items as int);
        }
        assert(self.next * self.size >= 0) by (nonlinear_arith);
        self.fb_offset + (self.next as u64) * (self.size as u64)
    }

    /// The end of the items that the window for the next item shows.
    fn window_end(&self) -> (end: usize)
        requires
            self.wf(),
            self.next < self.num_items,
        ensures
            end == self.reach(self.next as int),
            self.next < end <= self.num_items,
    {
        let window_offset: usize = (self.here() % WINDOW_UNIT) as usize;
        let max_items: usize = (PRAMIN_SIZE - window_offset) / self.size;
        proof {
            lemma_shown(PRAMIN_SIZE - window_offset, self.size as int);
        }
        let remaining: usize = self.num_items - self.next;
        if max_items < remaining {
            self.next + max_items
        } else {
            self.num_items
        }
    }

    /// What has to be done next.
    pub fn action(&self) -> (action: VramAction)
        requires
            self.wf(),
        ensures
            match self.phase {
                VramPhase::Check => action is ReadWindow,
                VramPhase::Move => action matches VramAction::WriteWindow { window_base: base }
                    && base == window_base(self.addr(self.next as int)),
                VramPhase::Confirm => action is ReadWindow,
                VramPhase::Items { first, .. } => action matches VramAction::Item { index, offset }
                    && index == self.next && offset == self.bar_offset(
                    first as int,
                    self.next as int,
                ),
                VramPhase::Finished(r) => action == VramAction::Done(r),
            },
    {
        match self.phase {
            VramPhase::Check => VramAction::ReadWindow,
            VramPhase::Move => {
                let base: u64 = (self.here() / WINDOW_UNIT) % WINDOW_POSITIONS;
                VramAction::WriteWindow { window_base: base as u32 }
            },
            VramPhase::Confirm => VramAction::ReadWindow,
            VramPhase::Items { first, end } => {
                proof {
                    law_item_in_window(*self, first as int, self.next as int);
                    assert(first * self.size <= self.next * self.size) by (nonlinear_arith)
                        requires
                            first <= self.next,
                    ;
                    assert(self.next * self.size - first * self.size == (self.next - first)
                        * self.size) by (nonlinear_arith);
                }
                let start: VramAccess = VramAccess { next: first, phase: VramPhase::Check, ..*self };
                let window_offset: usize = (start.here() % WINDOW_UNIT) as usize;
                VramAction::Item {
                    index: self.next,
                    offset: PRAMIN_BASE + window_offset + (self.next - first) * self.size,
                }
            },
            VramPhase::Finished(r) => VramAction::Done(r),
        }
    }

    /// Takes the outcome of what had to be done.
    pub fn handle(&mut self, event: VramEvent)
        requires
            old(self).wf(),
            old(self).answers(event),
        ensures
            final(self).wf(),
            *final(self) == old(self).after(event),
            0 <= final(self).events_left() < old(self).events_left(),
    {
        match (self.phase, event) {
            (VramPhase::Check, VramEvent::Window { window_base }) => {
                let here: u64 = self.here();
                if (window_base as u64) * WINDOW_UNIT == here / WINDOW_UNIT * WINDOW_UNIT {
                    let end: usize = self.window_end();
                    self.phase = VramPhase::Items { first: self.next, end };
                } else {
                    self.phase = VramPhase::Move;
                }
            },
            (VramPhase::Move, VramEvent::Written) => {
                self.phase = VramPhase::Confirm;
            },
            (VramPhase::Confirm, VramEvent::Window { window_base }) => {
                let here: u64 = self.here();
                if window_base as u64 == (here / WINDOW_UNIT) % WINDOW_POSITIONS {
                    let end: usize = self.window_end();
                    self.phase = VramPhase::Items { first: self.next, end };
                } else {
                    self.phase = VramPhase::Finished(Err(Error::EIO));
                }
            },
            (VramPhase::Items { first, end }, VramEvent::ItemDone(r)) => match r {
                Ok(_) => {
                    self.next = self.next + 1;
                    if self.next == self.num_items {
                        self.phase = VramPhase::Finished(Ok(()));
                    } else if self.next == end {
                        self.phase = VramPhase::Check;
                    }
                },
                Err(e) => {
                    self.phase = VramPhase::Finished(Err(e));
                },
            },
            _ => {},
        }
    }
}

proof fn lemma_addr_monotone(a: VramAccess, i: int, j: int)
    requires
        0 <= i <= j,
    ensures
        a.fb_offset <= a.addr(i) <= a.addr(j),
        i * a.size <= j * a.size,
{
    assert(0 <= i * a.size <= j * a.size) by (nonlinear_arith)
        requires
            0 <= i <= j,
    ;
}

proof fn lemma_shown(bytes: int, size: int)
    requires
        size == 1 || size == 2 || size == 4 || size == 8,
        bytes >= 8,
    ensures
        bytes / size >= 1,
{
}

/// An item that the window for item `first` is said to show lies in the window with all its bytes.
pub proof fn law_item_in_window(a: VramAccess, first: int, i: int)
    requires
        a.wf(),
        0 <= first <= i < a.reach(first),
    ensures
        PRAMIN_BASE <= a.bar_offset(first, i),
        a.bar_offset(first, i) + a.size <= PRAMIN_BASE + PRAMIN_SIZE,
{
    lemma_addr_monotone(a, 0, first);
    let room = PRAMIN_SIZE - a.addr(first) % WINDOW_UNIT as int;
    let shown = room / a.size as int;
    assert(0 <= (i - first) * a.size && (i - first) * a.size + a.size <= shown * a.size)
        by (nonlinear_arith)
        requires
            0 <= i - first,
            i - first + 1 <= shown,
    ;
    assert(shown * a.size <= room) by {
        vstd::arithmetic::div_mod::lemma_fundamental_div_mod(room, a.size as int);
        vstd::arithmetic::mul::lemma_mul_is_commutative(shown, a.size as int);
    }
}

/// With the window where the driver put it for item `first`, the place in BAR0 that it uses for
/// item `i` shows the address of that item in video memory, as far as the window register reaches.
pub proof fn law_item_shows_its_address(a: VramAccess, first: int, i: int)
    requires
        a.wf(),
        0 <= first <= i,
        a.addr(first) < WINDOW_UNIT * WINDOW_POSITIONS,
    ensures
        window_base(a.addr(first)) * WINDOW_UNIT == window_for(a.addr(first)),
        window_base(a.addr(first)) * WINDOW_UNIT + (a.bar_offset(first, i) - PRAMIN_BASE) == a.addr(
            i,
        ),
{
    lemma_addr_monotone(a, 0, first);
    assert((i - first) * a.size == i * a.size - first * a.size) by (nonlinear_arith);
}

/// A transfer stays well-formed, and what is left of it shrinks.
proof fn lemma_after(a: VramAccess, event: VramEvent)
    requires
        a.wf(),
        a.answers(event),
    ensures
        a.after(event).wf(),
        0 <= a.after(event).events_left() < a.events_left(),
{
    if a.next < a.num_items {
        lemma_addr_monotone(a, 0, a.next as int);
        lemma_shown(PRAMIN_SIZE - a.addr(a.next as int) % WINDOW_UNIT as int, a.size as int);
    }
}

/// A device whose window register holds `register`, which keeps what is written to it: the
/// addresses in video memory that the rest of the transfer touches, one after the other, and how
/// the transfer ends.
pub open spec fn run_transfer(a: VramAccess, register: u32) -> (Seq<int>, Result<(), Error>)
    decreases a.events_left(),
    when a.wf()
    via run_transfer_ends
{
    match a.phase {
        VramPhase::Check => run_transfer(
            a.after(VramEvent::Window { window_base: register }),
            register,
        ),
        VramPhase::Move => run_transfer(
            a.after(VramEvent::Written),
            window_base(a.addr(a.next as int)) as u32,
        ),
        VramPhase::Confirm => run_transfer(
            a.after(VramEvent::Window { window_base: register }),
            register,
        ),
        VramPhase::Items { first, .. } => {
            let shown = a.bar_offset(first as int, a.next as int) - PRAMIN_BASE;
            let rest = run_transfer(a.after(VramEvent::ItemDone(Ok(()))), register);
            (seq![register * WINDOW_UNIT + shown] + rest.0, rest.1)
        },
        VramPhase::Finished(r) => (Seq::empty(), r),
    }
}

#[via_fn]
proof fn run_transfer_ends(a: VramAccess, register: u32) {
    match a.phase {
        VramPhase::Check => lemma_after(a, VramEvent::Window { window_base: register }),
        VramPhase::Move => lemma_after(a, VramEvent::Written),
        VramPhase::Confirm => lemma_after(a, VramEvent::Window { window_base: register }),
        VramPhase::Items { .. } => lemma_after(a, VramEvent::ItemDone(Ok(()))),
        VramPhase::Finished(_) => {},
    }
}

/// Whether the window stands where the phase of the transfer says, as far as it says so.
pub open spec fn window_in_place(a: VramAccess, register: u32) -> bool {
    match a.phase {
        VramPhase::Confirm => register == window_base(a.addr(a.next as int)),
        VramPhase::Items { first, .. } => register == window_base(a.addr(first as int)),
        _ => true,
    }
}

/// On a working device a transfer within reach of the window register succeeds, wherever the window
/// stood before, and touches the addresses of its items in video memory, each item once and in
/// order.
pub proof fn law_transfer_touches_its_items(a: VramAccess, register: u32)
    requires
        a.wf(),
        !(a.phase is Finished),
        window_in_place(a, register),
        a.addr(a.num_items as int) <= WINDOW_UNIT * WINDOW_POSITIONS,
    ensures
        run_transfer(a, register).0 == Seq::new(
            (a.num_items - a.next) as nat,
            |k: int| a.addr(a.next + k),
        ),
        run_transfer(a, register).1 == Ok::<(), Error>(()),
    decreases a.events_left(),
{
    let want = Seq::new((a.num_items - a.next) as nat, |k: int| a.addr(a.next + k));
    lemma_addr_monotone(a, 0, a.next as int);
    lemma_addr_monotone(a, a.next as int, a.num_items as int);
    assert(a.addr(a.next as int) < a.addr(a.num_items as int)) by (nonlinear_arith)
        requires
            a.next < a.num_items,
            a.size >= 1,
    ;
    match a.phase {
        VramPhase::Check => {
            let event = VramEvent::Window { window_base: register };
            lemma_after(a, event);
            law_transfer_touches_its_items(a.after(event), register);
            assert(run_transfer(a, register).0 =~= want);
        },
        VramPhase::Move => {
            lemma_after(a, VramEvent::Written);
            let moved = window_base(a.addr(a.next as int)) as u32;
            law_transfer_touches_its_items(a.after(VramEvent::Written), moved);
            assert(run_transfer(a, register).0 =~= want);
        },
        VramPhase::Confirm => {
            let event = VramEvent::Window { window_base: register };
            lemma_after(a, event);
            law_transfer_touches_its_items(a.after(event), register);
            assert(run_transfer(a, register).0 =~= want);
        },
        VramPhase::Items { first, .. } => {
            let event = VramEvent::ItemDone(Ok(()));
            lemma_after(a, event);
            let next = a.after(event);
            lemma_addr_monotone(a, first as int, a.next as int);
            law_item_shows_its_address(a, first as int, a.next as int);
            if !(next.phase is Finished) {
                law_transfer_touches_its_items(next, register);
            }
            let rest = run_transfer(next, register);
            assert(rest.0 =~= Seq::new(
                (next.num_items - next.next) as nat,
                |k: int| a.addr(next.next + k),
            ));
            assert(run_transfer(a, register).0 =~= want);
        },
        VramPhase::Finished(_) => {},
    }
}

/// `memory` with `bytes` from the address `at` on.
pub open spec fn store(memory: spec_fn(int) -> u8, at: int, bytes: Seq<u8>) -> spec_fn(int) -> u8 {
    |x: int|
        if at <= x < at + bytes.len() {
            bytes[x - at]
        } else {
            memory(x)
        }
}

/// `memory` with each item stored at its address, one after the other.
pub open spec fn store_items(
    memory: spec_fn(int) -> u8,
    addrs: Seq<int>,
    items: Seq<Seq<u8>>,
) -> spec_fn(int) -> u8
    decreases items.len(),
{
    if items.len() == 0 {
        memory
    } else {
        store(store_items(memory, addrs, items.drop_last()), addrs[items.len() - 1], items.last())
    }
}

/// The items of `size` bytes that `memory` holds at the addresses.
pub open spec fn load_items(memory: spec_fn(int) -> u8, addrs: Seq<int>, size: nat) -> Seq<
    Seq<u8>,
> {
    addrs.map_values(|at: int| Seq::new(size, |j: int| memory(at + j)))
}

proof fn lemma_store_items(
    memory: spec_fn(int) -> u8,
    base: int,
    size: nat,
    addrs: Seq<int>,
    items: Seq<Seq<u8>>,
)
    requires
        items.len() <= addrs.len(),
        forall|i: int| 0 <= i < addrs.len() ==> #[trigger] addrs[i] == base + i * size,
        forall|i: int| 0 <= i < items.len() ==> (#[trigger] items[i]).len() == size,
    ensures
        forall|i: int, j: int|
            0 <= i < items.len() && 0 <= j < size ==> store_items(memory, addrs, items)(
                #[trigger] (addrs[i] + j),
            ) == #[trigger] items[i][j],
        forall|x: int|
            x < base || base + items.len() * size <= x ==> #[trigger] store_items(
                memory,
                addrs,
                items,
            )(x) == memory(x),
    decreases items.len(),
{
    if items.len() > 0 {
        let n = items.len() - 1;
        let init = items.drop_last();
        assert forall|i: int| 0 <= i < init.len() implies (#[trigger] init[i]).len() == size by {
            assert(init[i] == items[i]);
        }
        lemma_store_items(memory, base, size, addrs, init);
        let before = store_items(memory, addrs, init);
        let after = store_items(memory, addrs, items);
        assert(items[n].len() == size);
        assert((n + 1) * size == n * size + size) by (nonlinear_arith);
        assert(0 <= n * size) by (nonlinear_arith)
            requires
                0 <= n,
        ;
        assert forall|i: int, j: int| 0 <= i < items.len() && 0 <= j < size implies after(
            #[trigger] (addrs[i] + j),
        ) == #[trigger] items[i][j] by {
            if i < n {
                assert(i * size + size <= n * size) by (nonlinear_arith)
                    requires
                        i + 1 <= n,
                ;
                assert(init[i][j] == items[i][j]);
                assert(before(addrs[i] + j) == init[i][j]);
            }
        }
        assert forall|x: int| x < base || base + items.len() * size <= x implies #[trigger] after(x)
            == memory(x) by {
            assert(before(x) == memory(x));
        }
    }
}

/// On a working device, reading the place that was just written gives the items that were written,
/// wherever the window stood before either transfer. The rest of video memory is as it was.
pub proof fn law_read_gives_what_was_written(
    access: VramAccess,
    write_register: u32,
    read_register: u32,
    memory: spec_fn(int) -> u8,
    items: Seq<Seq<u8>>,
)
    requires
        access.wf(),
        access.next == 0,
        access.phase is Check || (access.num_items == 0 && access.phase is Finished),
        access.addr(access.num_items as int) <= WINDOW_UNIT * WINDOW_POSITIONS,
        items.len() == access.num_items,
        forall|i: int| 0 <= i < items.len() ==> (#[trigger] items[i]).len() == access.size,
    ensures
        ({
            let after = store_items(memory, run_transfer(access, write_register).0, items);
            &&& load_items(after, run_transfer(access, read_register).0, access.size as nat) == items
            &&& forall|x: int|
                x < access.fb_offset || access.addr(access.num_items as int) <= x ==> #[trigger] after(
                    x,
                ) == memory(x)
        }),
{
    if access.phase is Check {
        law_transfer_touches_its_items(access, write_register);
        law_transfer_touches_its_items(access, read_register);
    }
    let addrs = run_transfer(access, write_register).0;
    let after = store_items(memory, addrs, items);
    let size = access.size as nat;
    lemma_store_items(memory, access.fb_offset as int, size, addrs, items);
    let loaded = load_items(after, addrs, size);
    assert forall|i: int| 0 <= i < items.len() implies #[trigger] loaded[i] == items[i] by {
        assert forall|j: int| 0 <= j < size implies #[trigger] loaded[i][j] == items[i][j] by {
            assert(after(addrs[i] + j) == items[i][j]);
        }
        assert(items[i].len() == size);
        assert(loaded[i] =~= items[i]);
    }
    assert(loaded =~= items);
}

/// Saves the position of the window, moves it around, and puts it back.
#[derive(Debug, Clone, Copy, PartialEq, Eq, Structural)]
pub struct PraminVram {
    /// Where the window stood at first.
    pub saved_window: u64,
}

/// Whether a transfer of items of `size` bytes can start at `fb_offset`.
pub open spec fn aligned(fb_offset: u64, size: nat) -> bool {
    fb_offset as nat % size == 0
}

impl PraminVram {
    /// Starts to use the window, which stands at `window_base`.
    pub fn new(window_base: u32) -> (vram: PraminVram)
        ensures
            vram.saved_window == window_base * WINDOW_UNIT,
    {
        PraminVram { saved_window: PraminVram::get_window(window_base) }
    }

    /// The position in video memory that the register value `window_base` stands for.
    pub fn get_window(window_base: u32) -> (fb_offset: u64)
        ensures
            fb_offset == window_base * WINDOW_UNIT,
    {
        (window_base as u64) * WINDOW_UNIT
    }

    /// The register value that moves the window to `fb_offset`, which must be a multiple of 64 KiB.
    pub fn set_window(fb_offset: u64) -> (r: Result<u32, Error>)
        ensures
            r is Ok <==> fb_offset % WINDOW_UNIT == 0,
            r matches Err(e) ==> e == Error::EINVAL,
            r matches Ok(base) ==> base == window_base(fb_offset as int),
    {
        if fb_offset % WINDOW_UNIT != 0 {
            return Err(Error::EINVAL);
        }
        Ok(((fb_offset / WINDOW_UNIT) % WINDOW_POSITIONS) as u32)
    }

    /// Starts a transfer of `num_items` numbers from `fb_offset` on, which must be aligned.
    pub fn access_vram<T: PraminNum>(fb_offset: u64, num_items: usize) -> (r: Result<
        VramAccess,
        Error,
    >)
        requires
            aligned(fb_offset, T::spec_size()) ==> fb_offset + num_items * T::spec_size()
                <= u64::MAX,
        ensures
            r is Ok <==> aligned(fb_offset, T::spec_size()),
            r is Ok <==> fb_offset as nat % T::spec_size() == 0,
            r matches Err(e) ==> e == Error::EINVAL,
            r matches Ok(access) ==> {
                &&& access.wf()
                &&& access.fb_offset == fb_offset
                &&& access.num_items == num_items
                &&& access.size == T::spec_size()
                &&& access.next == 0
                &&& access.phase == if num_items == 0 {
                    VramPhase::Finished(Ok(()))
                } else {
                    VramPhase::Check
                }
            },
    {
        let size: usize = T::size_bytes();
        if fb_offset % (T::alignment() as u64) != 0 {
            return Err(Error::EINVAL);
        }
        let phase: VramPhase = if num_items == 0 {
            VramPhase::Finished(Ok(()))
        } else {
            VramPhase::Check
        };
        Ok(VramAccess { fb_offset, num_items, size, next: 0, phase })
    }

    /// The register value that puts the window back.
    pub fn restore(&self) -> (r: Result<u32, Error>)
        ensures
            r is Ok <==> self.saved_window % WINDOW_UNIT == 0,
            r matches Err(e) ==> e == Error::EINVAL,
            r matches Ok(base) ==> base == window_base(self.saved_window as int),
    {
        PraminVram::set_window(self.saved_window)
    }
}

/// Putting the window back restores the register value that was found at first.
pub proof fn law_window_is_restored(base: u32, vram: PraminVram)
    requires
        base < WINDOW_POSITIONS,
        vram.saved_window == base * WINDOW_UNIT,
    ensures
        vram.saved_window % WINDOW_UNIT == 0,
        window_base(vram.saved_window as int) == base,
{
}

/// A transfer of numbers of `size` bytes starts at every multiple of that size.
pub proof fn law_transfers_start_at_multiples(k: int, size: nat)
    requires
        size == 1 || size == 2 || size == 4 || size == 8,
        0 <= k,
        k * size <= u64::MAX,
    ensures
        aligned((k * size) as u64, size),
{
    assert(0 <= k * size) by (nonlinear_arith)
        requires
            0 <= k,
    ;
    vstd::arithmetic::div_mod::lemma_mod_multiples_basic(k, size as int);
}

/// A transfer of numbers of `size` bytes starts nowhere but at a multiple of that size.
pub proof fn law_transfers_start_nowhere_else(fb_offset: u64, size: nat)
    requires
        size == 1 || size == 2 || size == 4 || size == 8,
        aligned(fb_offset, size),
    ensures
        exists|k: int| fb_offset == #[trigger] (k * size),
{
    let k = fb_offset as int / size as int;
    assert(fb_offset == k * size);
}

/// The sizes of the numbers, in bytes.
pub proof fn law_number_sizes()
    ensures
        <u8 as PraminNum>::spec_size() == 1,
        <u16 as PraminNum>::spec_size() == 2,
        <u32 as PraminNum>::spec_size() == 4,
        <u64 as PraminNum>::spec_size() == 8,
{
}

/// The window for an address starts at the last multiple of 64 KiB up to that address.
pub proof fn law_window_for_address(addr: int)
    requires
        0 <= addr,
    ensures
        window_for(addr) % 0x1_0000 == 0,
        window_for(addr) <= addr < window_for(addr) + 0x1_0000,
{
}

/// The register value for a position is told by bits 16 to 39 alone, and every position in reach is
/// told apart.
pub proof fn law_window_register(unit: int, low: int, high: int)
    requires
        0 <= unit < 0x100_0000,
        0 <= low < 0x1_0000,
        0 <= high,
    ensures
        window_base(unit * 0x1_0000 + low + high * 0x100_0000_0000) == unit,
{
}

/// The window shows as many items as fit: where it ends before the last item, the next item would
/// not lie in it with all its bytes. Item `first` stands in it behind the start of PRAMIN, by as much
/// as its address is above the window.
pub proof fn law_window_is_used_up(a: VramAccess, first: int)
    requires
        a.wf(),
        0 <= first < a.num_items,
    ensures
        first < a.reach(first) <= a.num_items,
        a.bar_offset(first, first) == 0x70_0000 + (a.addr(first) - window_for(a.addr(first))),
        a.reach(first) < a.num_items ==> a.bar_offset(first, a.reach(first)) + a.size > 0x80_0000,
{
    lemma_addr_monotone(a, 0, first);
    let room = 0x10_0000 - a.addr(first) % 0x1_0000;
    lemma_shown(room, a.size as int);
    let shown = room / a.size as int;
    vstd::arithmetic::div_mod::lemma_fundamental_div_mod(room, a.size as int);
    assert(0 * a.size == 0);
    if a.reach(first) < a.num_items {
        assert(a.reach(first) == first + shown);
        assert(shown * a.size + a.size > room) by {
            vstd::arithmetic::mul::lemma_mul_is_commutative(shown, a.size as int);
            vstd::arithmetic::div_mod::lemma_mod_bound(room, a.size as int);
        }
    }
}

/// Where the items of a transfer stand in video memory: the first one at its start, the others each
/// right behind the one before.
pub proof fn law_items_are_consecutive(a: VramAccess, i: int)
    ensures
        a.addr(0) == a.fb_offset,
        a.addr(i + 1) == a.addr(i) + a.size,
{
    assert(0 * a.size == 0);
    assert((i + 1) * a.size == i * a.size + a.size) by (nonlinear_arith);
}

/// A window that stands where the next item needs it is used as it is; otherwise it is moved.
pub proof fn law_window_moves_only_if_needed(a: VramAccess, register: u32)
    requires
        a.wf(),
        a.phase is Check,
    ensures
        ({
            let after = a.after(VramEvent::Window { window_base: register });
            let here = a.addr(a.next as int);
            &&& register * 0x1_0000 <= here < register * 0x1_0000 + 0x1_0000 ==> after.phase
                == VramPhase::Items { first: a.next, end: a.reach(a.next as int) as usize }
            &&& !(register * 0x1_0000 <= here < register * 0x1_0000 + 0x1_0000) ==> after.phase
                is Move
            &&& after.next == a.next
        }),
{
    lemma_addr_monotone(a, 0, a.next as int);
}

/// A window that did not take its new position ends the transfer with an I/O error; one that did
/// makes the items reachable.
pub proof fn law_stuck_window_is_an_error(a: VramAccess, register: u32)
    requires
        a.wf(),
        a.phase is Confirm,
        a.addr(a.next as int) < 0x100_0000_0000,
    ensures
        ({
            let after = a.after(VramEvent::Window { window_base: register });
            let here = a.addr(a.next as int);
            if register * 0x1_0000 <= here < register * 0x1_0000 + 0x1_0000 {
                after.phase == (VramPhase::Items {
                    first: a.next,
                    end: a.reach(a.next as int) as usize,
                })
            } else {
                after.phase == VramPhase::Finished(Err(Error::EIO))
            }
        }),
{
    lemma_addr_monotone(a, 0, a.next as int);
}

/// An item that cannot be transferred ends the transfer with its own error. One that can is followed
/// by the next, and the last one ends the transfer with success.
pub proof fn law_items_follow_each_other(a: VramAccess, e: Error)
    requires
        a.wf(),
        a.phase is Items,
    ensures
        a.after(VramEvent::ItemDone(Err(e))).phase == VramPhase::Finished(Err(e)),
        a.after(VramEvent::ItemDone(Err(e))).next == a.next,
        a.after(VramEvent::ItemDone(Ok(()))).next == a.next + 1,
        a.after(VramEvent::ItemDone(Ok(()))).phase is Finished <==> a.next + 1 == a.num_items,
        a.after(VramEvent::ItemDone(Ok(()))).phase is Finished ==> a.after(
            VramEvent::ItemDone(Ok(())),
        ).phase == VramPhase::Finished(Ok(())),
{
}

/// A transfer that is under way takes every outcome of what it asks for.
pub proof fn law_transfer_takes_outcomes(a: VramAccess, register: u32, r: Result<(), Error>)
    ensures
        a.phase is Check || a.phase is Confirm ==> a.answers(
            VramEvent::Window { window_base: register },
        ),
        a.phase is Move ==> a.answers(VramEvent::Written),
        a.phase is Items ==> a.answers(VramEvent::ItemDone(r)),
{
}

} // verus!

use vstd::prelude::*;

verus! {

/// A handle to a string interned in a `StringPool`.  Handle `n` names the
/// pool's slot `n - 1`; no handle has the number zero.
#[derive(Clone, Copy, Debug, PartialEq, Eq, Structural)]
pub struct StringRef {
    pub number: usize,
}

impl StringRef {
    /// The handle's number.
    pub open spec fn spec_number(&self) -> usize {
        self.number
    }

    /// Makes the handle with the given number.
    pub fn new(number: usize) -> (r: StringRef)
        ensures
            r.spec_number() == number,
    {
        StringRef { number }
    }

    /// Returns the handle's number.
    #[verifier::when_used_as_spec(spec_number)]
    pub fn number(&self) -> (r: usize)
        ensures
            r == self.spec_number(),
    {
        self.number
    }
}

/// One slot of a pool: the text it holds and the number of uses registered
/// for it.  A slot with no uses is retired.
pub type Slot = (Seq<char>, nat);

/// Whether slot `i` of `slots` holds a string that is in use.
pub open spec fn live_at(slots: Seq<Slot>, i: int) -> bool {
    0 <= i < slots.len() && slots[i].1 > 0
}

/// Whether some live slot holds `text`.
pub open spec fn holds(slots: Seq<Slot>, text: Seq<char>) -> bool {
    exists|i: int| live_at(slots, i) && (#[trigger] slots[i]).0 == text
}

/// A live slot that holds `text`, where there is one.
pub open spec fn slot_of(slots: Seq<Slot>, text: Seq<char>) -> int {
    choose|i: int| live_at(slots, i) && (#[trigger] slots[i]).0 == text
}

/// No two live slots hold the same text.
pub open spec fn distinct(slots: Seq<Slot>) -> bool {
    forall|i: int, j: int|
        live_at(slots, i) && live_at(slots, j) && (#[trigger] slots[i]).0 == (#[trigger] slots[j]).0
            ==> i == j
}

/// The number of live slots.
pub open spec fn live_count(slots: Seq<Slot>) -> nat
    decreases slots.len(),
{
    if slots.len() == 0 {
        0
    } else {
        live_count(slots.drop_last()) + if slots.last().1 > 0 { 1nat } else { 0nat }
    }
}

/// The number of uses registered for `text`: zero where no live slot holds it.
pub open spec fn uses_of(slots: Seq<Slot>, text: Seq<char>) -> nat {
    if holds(slots, text) {
        slots[slot_of(slots, text)].1
    } else {
        0
    }
}

/// The handle number under which `text` is found after one more use of it
/// is registered: that of the live slot that holds it, else that of a new
/// slot at the end.
pub open spec fn interned_number(slots: Seq<Slot>, text: Seq<char>) -> int {
    if holds(slots, text) {
        slot_of(slots, text) + 1
    } else {
        (slots.len() + 1) as int
    }
}

/// The slots after one more use of `text` is registered.
pub open spec fn interned(slots: Seq<Slot>, text: Seq<char>) -> Seq<Slot> {
    if holds(slots, text) {
        let i = slot_of(slots, text);
        slots.update(i, (text, slots[i].1 + 1))
    } else {
        slots.push((text, 1nat))
    }
}

/// The slots after one use of handle `number` is released.  The slot's text
/// is dropped with its last use.
pub open spec fn released(slots: Seq<Slot>, number: int) -> Seq<Slot>
    recommends
        live_at(slots, number - 1),
{
    let i = number - 1;
    let uses = (slots[i].1 - 1) as nat;
    slots.update(i, (if uses == 0 { Seq::<char>::empty() } else { slots[i].0 }, uses))
}

struct Entry {
    text: String,
    uses: u64,
}

/// A pool of interned strings, each with a count of its uses.
pub struct StringPool {
    entries: Vec<Entry>,
}

impl View for StringPool {
    type V = Seq<Slot>;

    closed spec fn view(&self) -> Seq<Slot> {
        Seq::new(self.entries@.len(), |i: int| (self.entries@[i].text@, self.entries@[i].uses as nat))
    }
}

impl StringPool {
    /// The pool's invariant: no two live slots hold the same text.
    pub open spec fn wf(&self) -> bool {
        distinct(self@)
    }

    /// Whether `string_ref` names a live slot of this pool.
    pub open spec fn is_live(&self, string_ref: StringRef) -> bool {
        live_at(self@, string_ref.spec_number() - 1)
    }

    /// The text that `string_ref` stands for.
    pub open spec fn text_of(&self, string_ref: StringRef) -> Seq<char>
        recommends
            self.is_live(string_ref),
    {
        self@[string_ref.spec_number() - 1].0
    }

    /// Whether one more use of `text` can be counted.
    pub open spec fn has_room(&self, text: Seq<char>) -> bool {
        uses_of(self@, text) < u64::MAX
    }

    /// Creates an empty pool.
    pub fn new() -> (pool: StringPool)
        ensures
            pool@ == Seq::<Slot>::empty(),
            pool.wf(),
    {
        let pool = StringPool { entries: Vec::new() };
        assert(pool@ =~= Seq::<Slot>::empty());
        pool
    }

    /// Returns the number of slots, live and retired.
    pub fn num_slots(&self) -> (n: usize)
        ensures
            n == self@.len(),
    {
        self.entries.len()
    }

    /// Returns true if `string_ref` names a live slot of this pool.
    pub fn contains(&self, string_ref: StringRef) -> (live: bool)
        ensures
            live == self.is_live(string_ref),
    {
        if string_ref.number == 0 || string_ref.number > self.entries.len() {
            false
        } else {
            let i: usize = string_ref.number - 1;
            assert(self@[i as int].1 == self.entries@[i as int].uses);
            self.entries[i].uses > 0
        }
    }

    /// Returns the number of live slots.
    pub fn num_live(&self) -> (n: usize)
        ensures
            n == live_count(self@),
    {
        let mut n: usize = 0;
        let mut i: usize = 0;
        while i < self.entries.len()
            invariant
                i <= self.entries@.len(),
                n == live_count(self@.subrange(0, i as int)),
                n <= i,
            decreases self.entries@.len() - i,
        {
            assert(self@.subrange(0, i + 1).drop_last() =~= self@.subrange(0, i as int));
            if self.entries[i].uses > 0 {
                n += 1;
            }
            i += 1;
        }
        assert(self@.subrange(0, i as int) =~= self@);
        n
    }

    /// Returns the live slot that holds `text`, if there is one.
    fn find(&self, text: &String) -> (found: Option<usize>)
        requires
            self.wf(),
        ensures
            found.is_some() == holds(self@, text@),
            found.is_some() ==> found.unwrap() == slot_of(self@, text@) && live_at(
                self@,
                found.unwrap() as int,
            ),
    {
        let mut i: usize = 0;
        while i < self.entries.len()
            invariant
                i <= self.entries@.len(),
                self.wf(),
                forall|j: int| 0 <= j < i ==> !(live_at(self@, j) && (#[trigger] self@[j]).0 == text@),
            decreases self.entries@.len() - i,
        {
            assert(self@[i as int] == (self.entries@[i as int].text@, self.entries@[i as int].uses as nat));
            if self.entries[i].uses > 0 && self.entries[i].text == *text {
                assert(live_at(self@, i as int) && self@[i as int].0 == text@);
                return Some(i);
            }
            i += 1;
        }
        None
    }

    /// Returns how many uses are registered for `text`.
    pub fn uses(&self, text: &String) -> (n: u64)
        requires
            self.wf(),
        ensures
            n == uses_of(self@, text@),
    {
        match self.find(text) {
            Some(i) => {
                assert(self@[i as int].1 == self.entries@[i as int].uses);
                self.entries[i].uses
            },
            None => 0,
        }
    }

    /// Registers a use of `text` and returns its handle.  Equal text gets
    /// the handle it already has while it is live; other text gets a new
    /// slot with one use.
    pub fn incref(&mut self, text: String) -> (string_ref: StringRef)
        requires
            old(self).wf(),
            old(self).has_room(text@),
        ensures
            final(self).wf(),
            final(self)@ == interned(old(self)@, text@),
            string_ref.spec_number() == interned_number(old(self)@, text@),
            final(self).is_live(string_ref),
            final(self).text_of(string_ref) == text@,
    {
        proof {
            lemma_interned_distinct(self@, text@);
        }
        match self.find(&text) {
            Some(i) => {
                assert(self@[i as int].1 == self.entries@[i as int].uses);
                let uses: u64 = self.entries[i].uses + 1;
                let slots: usize = self.entries.len();
                assert(i < slots);
                let number: usize = i + 1;
                self.entries.set(i, Entry { text, uses });
                assert(self@ =~= interned(old(self)@, text@));
                StringRef { number }
            },
            None => {
                self.entries.push(Entry { text, uses: 1 });
                assert(self@ =~= interned(old(self)@, text@));
                StringRef { number: self.entries.len() }
            },
        }
    }

    /// Releases one use of `string_ref`.  With its last use the slot is
    /// retired.
    pub fn decref(&mut self, string_ref: StringRef)
        requires
            old(self).wf(),
            old(self).is_live(string_ref),
        ensures
            final(self).wf(),
            final(self)@ == released(old(self)@, string_ref.spec_number() as int),
    {
        let i: usize = string_ref.number - 1;
        assert(self@[i as int] == (self.entries@[i as int].text@, self.entries@[i as int].uses as nat));
        let uses: u64 = self.entries[i].uses - 1;
        let text = if uses == 0 {
            String::new()
        } else {
            self.entries[i].text.clone()
        };
        proof {
            lemma_released_distinct(self@, string_ref.spec_number() as int);
        }
        self.entries.set(i, Entry { text, uses });
        assert(self@ =~= released(old(self)@, string_ref.spec_number() as int));
    }

    /// Returns the text that `string_ref` stands for.
    pub fn get(&self, string_ref: StringRef) -> (text: &str)
        requires
            self.is_live(string_ref),
        ensures
            text@ == self.text_of(string_ref),
    {
        let i: usize = string_ref.number - 1;
        assert(self@[i as int] == (self.entries@[i as int].text@, self.entries@[i as int].uses as nat));
        self.entries[i].text.as_str()
    }
}

/// Registering a use keeps live texts distinct.
pub proof fn lemma_interned_distinct(slots: Seq<Slot>, text: Seq<char>)
    requires
        distinct(slots),
    ensures
        distinct(interned(slots, text)),
        live_at(interned(slots, text), interned_number(slots, text) - 1),
        interned(slots, text)[interned_number(slots, text) - 1].0 == text,
{
    let after = interned(slots, text);
    if holds(slots, text) {
        let k = slot_of(slots, text);
        assert forall|i: int, j: int|
            live_at(after, i) && live_at(after, j) && (#[trigger] after[i]).0 == (
            #[trigger] after[j]).0 implies i == j by {
            assert(live_at(slots, i) && live_at(slots, j));
            assert(slots[i].0 == after[i].0 && slots[j].0 == after[j].0);
        }
    } else {
        assert forall|i: int, j: int|
            live_at(after, i) && live_at(after, j) && (#[trigger] after[i]).0 == (
            #[trigger] after[j]).0 implies i == j by {
            if i < slots.len() && j == slots.len() {
                assert(live_at(slots, i) && slots[i].0 == text);
            }
            if j < slots.len() && i == slots.len() {
                assert(live_at(slots, j) && slots[j].0 == text);
            }
            if i < slots.len() && j < slots.len() {
                assert(live_at(slots, i) && live_at(slots, j));
                assert(slots[i].0 == after[i].0 && slots[j].0 == after[j].0);
            }
        }
    }
}

/// Releasing a use keeps live texts distinct.
pub proof fn lemma_released_distinct(slots: Seq<Slot>, number: int)
    requires
        distinct(slots),
        live_at(slots, number - 1),
    ensures
        distinct(released(slots, number)),
{
    let after = released(slots, number);
    assert forall|i: int, j: int|
        live_at(after, i) && live_at(after, j) && (#[trigger] after[i]).0 == (
        #[trigger] after[j]).0 implies i == j by {
        assert(live_at(slots, i) && live_at(slots, j));
        assert(slots[i].0 == after[i].0 && slots[j].0 == after[j].0);
    }
}

/// Replacing one slot changes the number of live slots by what that slot
/// contributes before and after.
pub proof fn lemma_live_count_update(slots: Seq<Slot>, i: int, slot: Slot)
    requires
        0 <= i < slots.len(),
    ensures
        live_count(slots.update(i, slot)) + (if slots[i].1 > 0 { 1nat } else { 0nat })
            == live_count(slots) + (if slot.1 > 0 { 1nat } else { 0nat }),
    decreases slots.len(),
{
    let after = slots.update(i, slot);
    if i == slots.len() - 1 {
        assert(after.drop_last() =~= slots.drop_last());
    } else {
        assert(after.drop_last() =~= slots.drop_last().update(i, slot));
        lemma_live_count_update(slots.drop_last(), i, slot);
    }
}

/// Deduplication: text that was just interned gets the same handle when it
/// is interned again, and the second call adds no live slot.
pub proof fn lemma_interned_again(slots: Seq<Slot>, text: Seq<char>)
    requires
        distinct(slots),
    ensures
        interned_number(interned(slots, text), text) == interned_number(slots, text),
        live_count(interned(interned(slots, text), text)) == live_count(interned(slots, text)),
{
    let once = interned(slots, text);
    let k = interned_number(slots, text) - 1;
    lemma_interned_distinct(slots, text);
    assert(live_at(once, k) && once[k].0 == text);
    assert(slot_of(once, text) == k);
    lemma_live_count_update(once, k, (text, once[k].1 + 1));
}

/// Registering a use adds a live slot exactly where the text was not held.
pub proof fn lemma_interned_live_count(slots: Seq<Slot>, text: Seq<char>)
    ensures
        live_count(interned(slots, text)) == live_count(slots) + (if holds(slots, text) {
            0nat
        } else {
            1nat
        }),
{
    if holds(slots, text) {
        let i = slot_of(slots, text);
        lemma_live_count_update(slots, i, (text, slots[i].1 + 1));
    } else {
        assert(slots.push((text, 1nat)).drop_last() =~= slots);
    }
}

/// Balance: a use that is registered and then released leaves the number
/// of live slots as it was, and every slot that was live keeps its text and
/// its uses.
pub proof fn lemma_interned_released(slots: Seq<Slot>, text: Seq<char>)
    requires
        distinct(slots),
    ensures
        live_count(released(interned(slots, text), interned_number(slots, text))) == live_count(
            slots,
        ),
        forall|i: int|
            live_at(slots, i) ==> released(interned(slots, text), interned_number(slots, text))[i]
                == #[trigger] slots[i],
        holds(slots, text) ==> released(interned(slots, text), interned_number(slots, text))
            == slots,
{
    let once = interned(slots, text);
    let number = interned_number(slots, text);
    let back = released(once, number);
    if holds(slots, text) {
        assert(back =~= slots);
    } else {
        lemma_interned_live_count(slots, text);
        lemma_live_count_update(once, number - 1, (Seq::<char>::empty(), 0nat));
    }
}

/// No early eviction: a slot with more than one use stays live, with its
/// text, when one use is released.
pub proof fn lemma_released_keeps_shared(slots: Seq<Slot>, number: int)
    requires
        live_at(slots, number - 1),
        slots[number - 1].1 > 1,
    ensures
        live_at(released(slots, number), number - 1),
        released(slots, number)[number - 1].0 == slots[number - 1].0,
        live_count(released(slots, number)) == live_count(slots),
{
    lemma_live_count_update(slots, number - 1, released(slots, number)[number - 1]);
    assert(released(slots, number) =~= slots.update(number - 1, released(slots, number)[number - 1]));
}

/// The slots after `n` more uses of `text` are registered, one by one.
pub open spec fn interned_times(slots: Seq<Slot>, text: Seq<char>, n: nat) -> Seq<Slot>
    decreases n,
{
    if n == 0 {
        slots
    } else {
        interned(interned_times(slots, text, (n - 1) as nat), text)
    }
}

/// The slots after `n` uses of handle `number` are released, one by one.
pub open spec fn released_times(slots: Seq<Slot>, number: int, n: nat) -> Seq<Slot>
    decreases n,
{
    if n == 0 {
        slots
    } else {
        released(released_times(slots, number, (n - 1) as nat), number)
    }
}

/// Registering `n` uses of a text adds `n` to the uses of its slot, or
/// makes one new slot with `n` uses, and every use gets the same handle.
pub proof fn lemma_interned_times(slots: Seq<Slot>, text: Seq<char>, n: nat)
    requires
        distinct(slots),
        n > 0,
    ensures
        distinct(interned_times(slots, text, n)),
        holds(slots, text) ==> interned_times(slots, text, n) == slots.update(
            slot_of(slots, text),
            (text, slots[slot_of(slots, text)].1 + n),
        ),
        !holds(slots, text) ==> interned_times(slots, text, n) == slots.push((text, n)),
        interned_number(interned_times(slots, text, (n - 1) as nat), text) == interned_number(
            slots,
            text,
        ),
    decreases n,
{
    let k = interned_number(slots, text) - 1;
    if n == 1 {
        lemma_interned_distinct(slots, text);
    } else {
        lemma_interned_times(slots, text, (n - 1) as nat);
        let before = interned_times(slots, text, (n - 1) as nat);
        lemma_interned_distinct(before, text);
        assert(live_at(before, k) && before[k].0 == text);
        assert(slot_of(before, text) == k);
        if holds(slots, text) {
            assert(interned(before, text) =~= slots.update(k, (text, slots[k].1 + n)));
        } else {
            assert(interned(before, text) =~= slots.push((text, n)));
        }
        if n > 2 {
            let earlier = interned_times(slots, text, (n - 2) as nat);
            assert(before == interned(earlier, text));
            lemma_interned_times(slots, text, (n - 2) as nat);
            lemma_interned_again(earlier, text);
        }
    }
}

/// Releasing `n` uses of a handle that has at least `n` takes `n` from the
/// uses of its slot; the slot stays live, with its text, while a use is
/// left.
pub proof fn lemma_released_times(slots: Seq<Slot>, number: int, n: nat)
    requires
        live_at(slots, number - 1),
        n <= slots[number - 1].1,
    ensures
        released_times(slots, number, n) == slots.update(
            number - 1,
            (
                if n > 0 && slots[number - 1].1 == n {
                    Seq::<char>::empty()
                } else {
                    slots[number - 1].0
                },
                (slots[number - 1].1 - n) as nat,
            ),
        ),
    decreases n,
{
    if n == 0 {
        assert(slots =~= slots.update(number - 1, slots[number - 1]));
    } else {
        lemma_released_times(slots, number, (n - 1) as nat);
        let before = released_times(slots, number, (n - 1) as nat);
        assert(released(before, number) =~= slots.update(
            number - 1,
            (
                if slots[number - 1].1 == n {
                    Seq::<char>::empty()
                } else {
                    slots[number - 1].0
                },
                (slots[number - 1].1 - n) as nat,
            ),
        ));
    }
}

/// Balance: after `n` uses of a text are registered and `n` uses of its
/// handle are released, the number of live slots is what it was, and every
/// slot that was live has its text and its uses.
pub proof fn lemma_balanced(slots: Seq<Slot>, text: Seq<char>, n: nat)
    requires
        distinct(slots),
        n > 0,
    ensures
        live_count(
            released_times(interned_times(slots, text, n), interned_number(slots, text), n),
        ) == live_count(slots),
        forall|i: int|
            live_at(slots, i) ==> released_times(
                interned_times(slots, text, n),
                interned_number(slots, text),
                n,
            )[i] == #[trigger] slots[i],
{
    let number = interned_number(slots, text);
    let full = interned_times(slots, text, n);
    lemma_interned_times(slots, text, n);
    lemma_released_times(full, number, n);
    let back = released_times(full, number, n);
    if holds(slots, text) {
        assert(back =~= slots);
    } else {
        assert(back =~= slots.push((Seq::<char>::empty(), 0nat)));
        assert(back.drop_last() =~= slots);
    }
}

} // verus!

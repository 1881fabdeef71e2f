use vstd::prelude::*;
use crate::vector::Vec2;
use crate::components::EntityIndex;

verus! {

/// The fields of a record and their order in the flat buffer.
#[derive(Clone, Copy, Debug, PartialEq, Eq, Structural)]
pub enum Layout {
    /// `x, y, radius`
    Minimal,
    /// `x, y, radius, red, green, blue`
    Extended,
}

/// Colour channels red, green, blue.
#[derive(Clone, Copy, Debug, PartialEq, Eq, Structural)]
pub struct Color {
    pub red: i32,
    pub green: i32,
    pub blue: i32,
}

/// One particle as the store keeps it.
#[derive(Clone, Copy, Debug, PartialEq, Eq, Structural)]
pub struct ParticleRecord {
    pub position: Vec2,
    pub radius: i32,
    pub color: Option<Color>,
}

/// Why the store refused an operation.
#[derive(Clone, Copy, Debug, PartialEq, Eq, Structural)]
pub enum StoreError {
    /// An index at or beyond the number of records.
    IndexOutOfRange,
    /// An append to a full store; grow it and try again.
    CapacityExceeded,
}

impl Layout {
    /// The number of buffer elements per record.
    pub open spec fn stride(self) -> nat {
        match self {
            Layout::Minimal => 3,
            Layout::Extended => 6,
        }
    }

    /// Whether records of this layout carry colour.
    pub open spec fn has_color(self) -> bool {
        self == Layout::Extended
    }

    /// The record as this layout keeps it: a colour that the layout has no
    /// room for is left out, and a missing colour is black.
    pub open spec fn stored(self, record: ParticleRecord) -> ParticleRecord {
        ParticleRecord {
            color: if self.has_color() {
                Some(
                    match record.color {
                        Some(c) => c,
                        None => Color { red: 0, green: 0, blue: 0 },
                    },
                )
            } else {
                None
            },
            ..record
        }
    }

    /// The buffer elements of a record.
    pub open spec fn encode(self, record: ParticleRecord) -> Seq<i32> {
        let head = seq![record.position.x, record.position.y, record.radius];
        match self.stored(record).color {
            Some(c) => head + seq![c.red, c.green, c.blue],
            None => head,
        }
    }

    /// The record that starts at element `at` of `flat`.
    pub open spec fn decode(self, flat: Seq<i32>, at: int) -> ParticleRecord {
        ParticleRecord {
            position: Vec2 { x: flat[at], y: flat[at + 1] },
            radius: flat[at + 2],
            color: if self.has_color() {
                Some(Color { red: flat[at + 3], green: flat[at + 4], blue: flat[at + 5] })
            } else {
                None
            },
        }
    }

    /// The number of buffer elements per record.
    pub fn elements(&self) -> (n: usize)
        ensures
            n == self.stride(),
    {
        match self {
            Layout::Minimal => 3,
            Layout::Extended => 6,
        }
    }
}

impl ParticleRecord {
    /// The record fits the layout: it carries colour exactly if the layout does.
    pub open spec fn matches(self, layout: Layout) -> bool {
        self.color is Some <==> layout.has_color()
    }
}

/// The most elements that backing storage can have room for: its size in
/// bytes, four to an element, must not exceed `isize::MAX`.
pub open spec fn max_elements() -> int {
    isize::MAX as int / 4
}

/// The most elements that backing storage can have room for.
pub fn element_limit() -> (limit: usize)
    ensures
        limit == max_elements(),
{
    (isize::MAX / 4) as usize
}

/// The mathematical value of a store.
pub struct StoreView {
    pub layout: Layout,
    /// How many records the backing storage has room for.
    pub capacity: nat,
    /// The records, one after another, `stride` elements each.
    pub flat: Seq<i32>,
}

impl StoreView {
    /// The number of records.
    pub open spec fn count(self) -> nat {
        self.flat.len() / self.layout.stride()
    }

    /// Record `i`.
    pub open spec fn record(self, i: int) -> ParticleRecord {
        self.layout.decode(self.flat, i * self.layout.stride())
    }

    /// The buffer holds whole records, no more than there is room for, and
    /// the room is no more than backing storage can have.
    pub open spec fn wf(self) -> bool {
        &&& self.flat.len() % self.layout.stride() == 0
        &&& self.count() <= self.capacity
        &&& self.capacity * self.layout.stride() <= max_elements()
    }
}

/// A growable flat arena of particle records with a fixed layout. Records
/// are only ever appended; the buffer is handed to a renderer as it is.
pub struct ParticleStore {
    layout: Layout,
    capacity: usize,
    data: Vec<i32>,
}

impl View for ParticleStore {
    type V = StoreView;

    closed spec fn view(&self) -> StoreView {
        StoreView { layout: self.layout, capacity: self.capacity as nat, flat: self.data@ }
    }
}

impl ParticleStore {
    #[verifier::type_invariant]
    spec fn well_formed(self) -> bool {
        self@.wf()
    }

    /// An empty store with room for `initial_capacity` records of `layout`.
    pub fn construct(initial_capacity: usize, layout: Layout) -> (store: Self)
        requires
            initial_capacity * layout.stride() <= max_elements(),
        ensures
            store@ == (StoreView { layout, capacity: initial_capacity as nat, flat: Seq::empty() }),
    {
        let room = initial_capacity * layout.elements();
        Self { layout, capacity: initial_capacity, data: Vec::with_capacity(room) }
    }

    /// The layout of the records.
    pub fn layout(&self) -> (layout: Layout)
        ensures
            layout == self@.layout,
    {
        self.layout
    }

    /// How many records there is room for.
    pub fn capacity(&self) -> (capacity: usize)
        ensures
            capacity == self@.capacity,
    {
        self.capacity
    }

    /// The number of records. Every store is well-formed, and a caller
    /// learns so here.
    pub fn count(&self) -> (count: usize)
        ensures
            count == self@.count(),
            self@.wf(),
    {
        proof {
            use_type_invariant(self);
        }
        self.data.len() / self.layout.elements()
    }

    /// The whole buffer, `count` records of `stride` elements each, for the
    /// renderer. A view cannot outlive the next change to the store.
    pub fn get_view(&self) -> (view: &[i32])
        ensures
            view@ == self@.flat,
    {
        self.data.as_slice()
    }

    /// Appends a record and returns its index, the number of records before.
    /// A full store refuses and stays as it is.
    pub fn append(&mut self, record: ParticleRecord) -> (result: Result<EntityIndex, StoreError>)
        ensures
            old(self)@.count() < old(self)@.capacity ==> {
                &&& result == Ok::<EntityIndex, StoreError>(
                    EntityIndex(old(self)@.count() as usize),
                )
                &&& final(self)@ == (StoreView {
                    flat: old(self)@.flat + old(self)@.layout.encode(record),
                    ..old(self)@
                })
                &&& final(self)@.count() == old(self)@.count() + 1
                &&& final(self)@.record(old(self)@.count() as int) == old(self)@.layout.stored(
                    record,
                )
                &&& forall|i: int|
                    0 <= i < old(self)@.count() ==> final(self)@.record(i) == old(self)@.record(i)
            },
            old(self)@.count() >= old(self)@.capacity ==> {
                &&& result == Err::<EntityIndex, StoreError>(StoreError::CapacityExceeded)
                &&& final(self)@ == old(self)@
            },
    {
        proof {
            use_type_invariant(&*self);
        }
        let index = self.count();
        if index >= self.capacity {
            return Err(StoreError::CapacityExceeded);
        }
        let ghost before = self.data@;
        let mut data: Vec<i32> = Vec::new();
        std::mem::swap(&mut data, &mut self.data);
        data.push(record.position.x);
        data.push(record.position.y);
        data.push(record.radius);
        match self.layout {
            Layout::Extended => {
                let color = match record.color {
                    Some(c) => c,
                    None => Color { red: 0, green: 0, blue: 0 },
                };
                data.push(color.red);
                data.push(color.green);
                data.push(color.blue);
            },
            Layout::Minimal => {},
        }
        proof {
            assert(data@ == before + self.layout.encode(record));
        }
        self.data = data;
        Ok(EntityIndex(index))
    }
}

/// Record `index` of `count` lies wholly within the buffer.
proof fn lemma_slot(view: StoreView, index: int)
    requires
        view.wf(),
        0 <= index < view.count(),
    ensures
        0 <= index * view.layout.stride(),
        index * view.layout.stride() + view.layout.stride() <= view.flat.len(),
        view.flat.len() <= usize::MAX,
{
    match view.layout {
        Layout::Minimal => {
            assert(index * 3 + 3 <= view.flat.len());
            assert(view.count() * 3 <= view.capacity * 3);
        },
        Layout::Extended => {
            assert(index * 6 + 6 <= view.flat.len());
            assert(view.count() * 6 <= view.capacity * 6);
        },
    }
}

impl ParticleStore {
    /// Moves the records to new backing storage with room for `new_capacity`
    /// records, lets the old storage go, and returns the view of the new.
    /// Every record keeps its index and its elements; only the capacity
    /// changes.
    pub fn grow(&mut self, new_capacity: usize) -> (view: &[i32])
        requires
            new_capacity >= old(self)@.count(),
            new_capacity * old(self)@.layout.stride() <= max_elements(),
        ensures
            final(self)@ == (StoreView { capacity: new_capacity as nat, ..old(self)@ }),
            forall|i: int|
                0 <= i < old(self)@.count() ==> final(self)@.record(i) == old(self)@.record(i),
            view@ == final(self)@.flat,
    {
        proof {
            use_type_invariant(&*self);
        }
        let room = new_capacity * self.layout.elements();
        let mut moved: Vec<i32> = Vec::with_capacity(room);
        let mut i: usize = 0;
        while i < self.data.len()
            invariant
                i <= self.data.len(),
                moved@ == self.data@.take(i as int),
            decreases self.data.len() - i,
        {
            moved.push(self.data[i]);
            i += 1;
        }
        proof {
            assert(moved@ == self.data@);
        }
        let layout = self.layout;
        *self = Self { layout, capacity: new_capacity, data: moved };
        self.data.as_slice()
    }

    /// Record `index`, or `IndexOutOfRange` for an index that is not below
    /// the number of records.
    pub fn record(&self, index: usize) -> (result: Result<ParticleRecord, StoreError>)
        ensures
            index < self@.count() ==> result == Ok::<ParticleRecord, StoreError>(
                self@.record(index as int),
            ),
            index >= self@.count() ==> result == Err::<ParticleRecord, StoreError>(
                StoreError::IndexOutOfRange,
            ),
    {
        proof {
            use_type_invariant(self);
        }
        if index >= self.count() {
            return Err(StoreError::IndexOutOfRange);
        }
        proof {
            lemma_slot(self@, index as int);
        }
        let at = index * self.layout.elements();
        let color = match self.layout {
            Layout::Extended => Some(
                Color { red: self.data[at + 3], green: self.data[at + 4], blue: self.data[at + 5] },
            ),
            Layout::Minimal => None,
        };
        Ok(
            ParticleRecord {
                position: Vec2 { x: self.data[at], y: self.data[at + 1] },
                radius: self.data[at + 2],
                color,
            },
        )
    }

    /// The position of record `index`.
    pub fn position(&self, index: usize) -> (result: Result<Vec2, StoreError>)
        ensures
            index < self@.count() ==> result == Ok::<Vec2, StoreError>(
                self@.record(index as int).position,
            ),
            index >= self@.count() ==> result == Err::<Vec2, StoreError>(
                StoreError::IndexOutOfRange,
            ),
    {
        match self.record(index) {
            Ok(r) => Ok(r.position),
            Err(e) => Err(e),
        }
    }

    /// The radius of record `index`.
    pub fn radius(&self, index: usize) -> (result: Result<i32, StoreError>)
        ensures
            index < self@.count() ==> result == Ok::<i32, StoreError>(
                self@.record(index as int).radius,
            ),
            index >= self@.count() ==> result == Err::<i32, StoreError>(
                StoreError::IndexOutOfRange,
            ),
    {
        match self.record(index) {
            Ok(r) => Ok(r.radius),
            Err(e) => Err(e),
        }
    }

    /// The colour of record `index`; `None` in a layout without colour.
    pub fn color(&self, index: usize) -> (result: Result<Option<Color>, StoreError>)
        ensures
            index < self@.count() ==> result == Ok::<Option<Color>, StoreError>(
                self@.record(index as int).color,
            ),
            index >= self@.count() ==> result == Err::<Option<Color>, StoreError>(
                StoreError::IndexOutOfRange,
            ),
    {
        match self.record(index) {
            Ok(r) => Ok(r.color),
            Err(e) => Err(e),
        }
    }

    /// Overwrites element `offset` of record `index`.
    fn put(&mut self, index: usize, offset: usize, value: i32)
        requires
            index < old(self)@.count(),
            offset < old(self)@.layout.stride(),
        ensures
            final(self)@ == (StoreView {
                flat: old(self)@.flat.update(index * old(self)@.layout.stride() + offset, value),
                ..old(self)@
            }),
    {
        proof {
            use_type_invariant(&*self);
            lemma_slot(self@, index as int);
        }
        let at = index * self.layout.elements() + offset;
        let mut data: Vec<i32> = Vec::new();
        std::mem::swap(&mut data, &mut self.data);
        data.set(at, value);
        self.data = data;
    }
}

impl StoreView {
    /// The store with record `index` replaced by `record` as the layout keeps it.
    pub open spec fn with_record(self, index: int, record: ParticleRecord) -> StoreView {
        let at = index * self.layout.stride();
        StoreView {
            flat: self.flat.subrange(0, at) + self.layout.encode(record) + self.flat.subrange(
                at + self.layout.stride(),
                self.flat.len() as int,
            ),
            ..self
        }
    }
}

/// Replacing a record changes that record and no other.
pub proof fn lemma_with_record(view: StoreView, index: int, record: ParticleRecord)
    requires
        view.wf(),
        0 <= index < view.count(),
    ensures
        view.with_record(index, record).wf(),
        view.with_record(index, record).count() == view.count(),
        view.with_record(index, record).record(index) == view.layout.stored(record),
        forall|j: int|
            0 <= j < view.count() && j != index ==> view.with_record(index, record).record(j)
                == view.record(j),
{
    lemma_slot(view, index);
    let after = view.with_record(index, record);
    let stride = view.layout.stride() as int;
    let at = index * stride;
    assert(view.layout.encode(record).len() == stride);
    assert(after.flat.len() == view.flat.len());
    assert forall|k: int| 0 <= k < at || at + stride <= k < view.flat.len() implies after.flat[k]
        == view.flat[k] by {}
    assert forall|o: int| 0 <= o < stride implies after.flat[at + o] == view.layout.encode(
        record,
    )[o] by {}
    assert forall|j: int| 0 <= j < view.count() && j != index implies after.record(j)
        == view.record(j) by {
        lemma_slot(view, j);
        if j < index {
            assert(j * stride + stride <= at) by (nonlinear_arith)
                requires
                    j + 1 <= index,
                    stride > 0,
                    at == index * stride,
            ;
        } else {
            assert(at + stride <= j * stride) by (nonlinear_arith)
                requires
                    index + 1 <= j,
                    stride > 0,
                    at == index * stride,
            ;
        }
    }
    assert(after.record(index) == view.layout.stored(record)) by {
        assert(after.flat[at + 0] == record.position.x);
        assert(after.flat[at + 1] == record.position.y);
        assert(after.flat[at + 2] == record.radius);
        if view.layout.has_color() {
            assert(after.flat[at + 3] == view.layout.stored(record).color->Some_0.red);
            assert(after.flat[at + 4] == view.layout.stored(record).color->Some_0.green);
            assert(after.flat[at + 5] == view.layout.stored(record).color->Some_0.blue);
        }
    }
}

impl ParticleStore {
    /// Replaces record `index` by `record` as the layout keeps it; no other
    /// record changes. An index that is not below the number of records is
    /// refused with `IndexOutOfRange`, and the store stays as it is.
    pub fn set_record(&mut self, index: usize, record: ParticleRecord) -> (result: Result<
        (),
        StoreError,
    >)
        ensures
            index < old(self)@.count() ==> {
                &&& result == Ok::<(), StoreError>(())
                &&& final(self)@ == old(self)@.with_record(index as int, record)
            },
            index >= old(self)@.count() ==> {
                &&& result == Err::<(), StoreError>(StoreError::IndexOutOfRange)
                &&& final(self)@ == old(self)@
            },
    {
        if index >= self.count() {
            return Err(StoreError::IndexOutOfRange);
        }
        let ghost before = self@;
        proof {
            lemma_slot(before, index as int);
        }
        self.put(index, 0, record.position.x);
        self.put(index, 1, record.position.y);
        self.put(index, 2, record.radius);
        match self.layout {
            Layout::Extended => {
                let color = match record.color {
                    Some(c) => c,
                    None => Color { red: 0, green: 0, blue: 0 },
                };
                self.put(index, 3, color.red);
                self.put(index, 4, color.green);
                self.put(index, 5, color.blue);
            },
            Layout::Minimal => {},
        }
        proof {
            assert(self@.flat =~= before.with_record(index as int, record).flat);
        }
        Ok(())
    }

    /// Moves record `index` to `position`.
    pub fn set_position(&mut self, index: usize, position: Vec2) -> (result: Result<
        (),
        StoreError,
    >)
        ensures
            index < old(self)@.count() ==> {
                &&& result == Ok::<(), StoreError>(())
                &&& final(self)@ == old(self)@.with_record(
                    index as int,
                    ParticleRecord { position, ..old(self)@.record(index as int) },
                )
            },
            index >= old(self)@.count() ==> {
                &&& result == Err::<(), StoreError>(StoreError::IndexOutOfRange)
                &&& final(self)@ == old(self)@
            },
    {
        match self.record(index) {
            Ok(r) => self.set_record(index, ParticleRecord { position, ..r }),
            Err(e) => Err(e),
        }
    }

    /// Gives record `index` the radius `radius`.
    pub fn set_radius(&mut self, index: usize, radius: i32) -> (result: Result<(), StoreError>)
        ensures
            index < old(self)@.count() ==> {
                &&& result == Ok::<(), StoreError>(())
                &&& final(self)@ == old(self)@.with_record(
                    index as int,
                    ParticleRecord { radius, ..old(self)@.record(index as int) },
                )
            },
            index >= old(self)@.count() ==> {
                &&& result == Err::<(), StoreError>(StoreError::IndexOutOfRange)
                &&& final(self)@ == old(self)@
            },
    {
        match self.record(index) {
            Ok(r) => self.set_record(index, ParticleRecord { radius, ..r }),
            Err(e) => Err(e),
        }
    }

    /// Gives record `index` the colour `color`. In a layout without colour
    /// the record stays as it is.
    pub fn set_color(&mut self, index: usize, color: Color) -> (result: Result<(), StoreError>)
        ensures
            index < old(self)@.count() ==> {
                &&& result == Ok::<(), StoreError>(())
                &&& final(self)@ == old(self)@.with_record(
                    index as int,
                    ParticleRecord { color: Some(color), ..old(self)@.record(index as int) },
                )
            },
            index >= old(self)@.count() ==> {
                &&& result == Err::<(), StoreError>(StoreError::IndexOutOfRange)
                &&& final(self)@ == old(self)@
            },
    {
        match self.record(index) {
            Ok(r) => self.set_record(index, ParticleRecord { color: Some(color), ..r }),
            Err(e) => Err(e),
        }
    }
}

/// A record that fits the layout is kept as it is, and so is whatever was
/// read from a store of that layout.
pub proof fn lemma_stored_matching(layout: Layout, record: ParticleRecord)
    ensures
        record.matches(layout) ==> layout.stored(record) == record,
        layout.stored(record).matches(layout),
        layout.stored(layout.stored(record)) == layout.stored(record),
        forall|flat: Seq<i32>, at: int| (#[trigger] layout.decode(flat, at)).matches(layout),
{
}

/// Reading back what was written: the elements of a record decode to the
/// record as the layout keeps it, wherever in a buffer they stand.
pub proof fn lemma_decode_encode(
    layout: Layout,
    record: ParticleRecord,
    front: Seq<i32>,
    back: Seq<i32>,
)
    ensures
        layout.encode(record).len() == layout.stride(),
        layout.decode(front + layout.encode(record) + back, front.len() as int) == layout.stored(
            record,
        ),
{
    let flat = front + layout.encode(record) + back;
    let at = front.len() as int;
    assert(flat[at] == record.position.x);
    assert(flat[at + 1] == record.position.y);
    assert(flat[at + 2] == record.radius);
    if layout.has_color() {
        assert(flat[at + 3] == layout.encode(record)[3]);
        assert(flat[at + 4] == layout.encode(record)[4]);
        assert(flat[at + 5] == layout.encode(record)[5]);
    }
}

/// Appending adds one record at the end and changes none before it: the new
/// record reads back as the layout keeps it.
pub proof fn lemma_appended(view: StoreView, record: ParticleRecord, capacity: nat)
    requires
        view.wf(),
        view.count() < capacity,
        capacity * view.layout.stride() <= max_elements(),
    ensures
        ({
            let after = StoreView {
                capacity,
                flat: view.flat + view.layout.encode(record),
                ..view
            };
            &&& after.wf()
            &&& after.count() == view.count() + 1
            &&& after.record(view.count() as int) == view.layout.stored(record)
            &&& forall|i: int| 0 <= i < view.count() ==> after.record(i) == view.record(i)
        }),
{
    let after = StoreView { capacity, flat: view.flat + view.layout.encode(record), ..view };
    assert forall|i: int| 0 <= i < view.count() implies after.record(i) == view.record(i) by {
        lemma_slot(StoreView { capacity, ..view }, i);
    }
    lemma_decode_encode(view.layout, record, view.flat, Seq::empty());
    assert(view.flat + view.layout.encode(record) + Seq::<i32>::empty() =~= after.flat);
    match view.layout {
        Layout::Minimal => {},
        Layout::Extended => {},
    }
}

/// Growth preservation: whatever the new capacity, a store that differs
/// from another in its capacity only has the same number of records and the
/// same record at every index.
pub proof fn lemma_growth_keeps_records(view: StoreView, new_capacity: nat)
    ensures
        (StoreView { capacity: new_capacity, ..view }).count() == view.count(),
        (StoreView { capacity: new_capacity, ..view }).flat == view.flat,
        forall|i: int| (StoreView { capacity: new_capacity, ..view }).record(i) == view.record(i),
        view.wf() && new_capacity >= view.count() && new_capacity * view.layout.stride()
            <= max_elements() ==> (StoreView { capacity: new_capacity, ..view }).wf(),
{
}

} // verus!

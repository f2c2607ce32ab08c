use slotmap::{DefaultKey, KeyData, SlotMap};
use std::collections::VecDeque;
use vstd::prelude::*;

verus! {

/// The objects of the heap, in a `slotmap::SlotMap` keyed by `DefaultKey`.
/// Verus refuses to declare `SlotMap` itself (its key parameter is bounded by
/// the crate's `Key` trait), so the map is held here, out of Verus's sight,
/// and read and changed through the functions below.
#[verifier::external_body]
pub struct Heap {
    map: SlotMap<DefaultKey, GcValue>,
}

/// The objects a heap holds, each under the number that `KeyData::as_ffi`
/// gives for its key.
pub uninterp spec fn heap_contents(m: Heap) -> Map<u64, GcValue>;

/// Calls `SlotMap::new`: a map that holds nothing.
#[verifier::external_body]
fn heap_new() -> (r: Heap)
    ensures
        heap_contents(r).dom() =~= Set::<u64>::empty(),
{
    Heap { map: SlotMap::new() }
}

/// Calls `SlotMap::insert` and gives back the new key as `KeyData::as_ffi`
/// makes it a number. The source stores the value under a key no live entry
/// has (a fresh slot, or a free one whose version it moves on to an odd
/// one), and panics only when there is no free slot and `u32::MAX` slots
/// exist. When no slot is free, every slot but the reserved first one holds
/// an entry, so the bound on the number of entries rules the panic out.
#[verifier::external_body]
fn heap_insert(m: &mut Heap, v: GcValue) -> (k: u64)
    requires
        heap_contents(*old(m)).dom().finite(),
        heap_contents(*old(m)).dom().len() + 2 < u32::MAX,
    ensures
        canonical(k) == k,
        !heap_contents(*old(m)).dom().contains(k),
        heap_contents(*final(m)) == heap_contents(*old(m)).insert(k, v),
{
    slotmap::Key::data(&m.map.insert(v)).as_ffi()
}

/// The number a live key of the map can have that `KeyData::from_ffi`
/// turns `k` into: `from_ffi` makes the version odd, and the version of a
/// live key always is.
pub open spec fn canonical(k: u64) -> u64 {
    k | 0x1_0000_0000
}

/// Calls `SlotMap::contains_key` with the key that `KeyData::from_ffi`
/// rebuilds from a number. In the source a key is found when its slot exists
/// and has the key's version, and a slot has an odd version exactly while
/// it holds an entry; so the key rebuilt from `k` is found exactly when
/// `canonical(k)` is the number of a live key.
#[verifier::external_body]
fn heap_contains(m: &Heap, k: u64) -> (b: bool)
    ensures
        b == heap_contents(*m).dom().contains(canonical(k)),
{
    m.map.contains_key(DefaultKey::from(KeyData::from_ffi(k)))
}

/// Calls `SlotMap::get` with the key that `KeyData::from_ffi` rebuilds from
/// a number; as for `contains_key`, the entry found is that of
/// `canonical(k)`, if it is live.
#[verifier::external_body]
fn heap_get(m: &Heap, k: u64) -> (r: Option<&GcValue>)
    ensures
        r == (if heap_contents(*m).dom().contains(canonical(k)) {
            Some(&heap_contents(*m)[canonical(k)])
        } else {
            None
        }),
{
    m.map.get(DefaultKey::from(KeyData::from_ffi(k)))
}

/// Calls `SlotMap::get_mut` with the key rebuilt from a number whose
/// canonical number is live, and unwraps the entry it finds; what is written
/// through the reference becomes that entry's value.
#[verifier::external_body]
fn heap_get_mut(m: &mut Heap, k: u64) -> (r: &mut GcValue)
    requires
        heap_contents(*old(m)).dom().contains(canonical(k)),
    ensures
        *r == heap_contents(*old(m))[canonical(k)],
        heap_contents(*final(m)) == heap_contents(*old(m)).insert(canonical(k), *final(r)),
{
    m.map.get_mut(DefaultKey::from(KeyData::from_ffi(k))).unwrap()
}

/// Calls `SlotMap::len`, the number of entries the map holds.
#[verifier::external_body]
fn heap_len(m: &Heap) -> (n: usize)
    ensures
        n == heap_contents(*m).dom().len(),
{
    m.map.len()
}

/// Calls `SlotMap::retain` with `sweep_entry`. The source visits every live
/// entry once, in place, and removes it when the function returns false;
/// the entries it keeps stay under their keys. So the entries left are the
/// marked ones, each unmarked, with its data unchanged.
#[verifier::external_body]
fn heap_sweep(m: &mut Heap)
    ensures
        heap_contents(*final(m)) == swept(heap_contents(*old(m))),
{
    m.map.retain(|_, v| sweep_entry(v));
}

/// The marked objects of a heap, each unmarked.
pub open spec fn swept(objs: Map<u64, GcValue>) -> Map<u64, GcValue> {
    Map::new(
        |k: u64| objs.dom().contains(k) && objs[k].mark != GcMark::White,
        |k: u64| GcValue { mark: GcMark::White, data: objs[k].data },
    )
}

/// Unmarks an object and tells whether it was marked.
fn sweep_entry(v: &mut GcValue) -> (keep: bool)
    ensures
        keep == (old(v).mark != GcMark::White),
        final(v).mark == GcMark::White,
        final(v).data == old(v).data,
{
    let keep = v.mark != GcMark::White;
    v.mark = GcMark::White;
    keep
}

/// The mark of a live object.
fn mark_of(m: &Heap, h: GcHandle) -> (r: GcMark)
    requires
        heap_contents(*m).dom().contains(h.0),
        canonical(h.0) == h.0,
    ensures
        r == heap_contents(*m)[h.0].mark,
{
    heap_get(m, h.0).unwrap().mark
}

/// Sets the mark of a live object; its data stays.
fn set_mark(m: &mut Heap, h: GcHandle, mark: GcMark)
    requires
        heap_contents(*old(m)).dom().contains(h.0),
        canonical(h.0) == h.0,
    ensures
        heap_contents(*final(m)) == heap_contents(*old(m)).insert(
            h.0,
            GcValue { mark, data: heap_contents(*old(m))[h.0].data },
        ),
{
    let v = heap_get_mut(m, h.0);
    v.mark = mark;
}

/// A handle to an object of the heap: the number of its slot-map key.
#[derive(Clone, Copy, PartialEq, Eq, Structural, Debug, Hash)]
pub struct GcHandle(pub u64);

impl GcHandle {
    /// The slot index of the key, which orders handles first.
    pub open spec fn slot(self) -> int {
        self.0 as int % 0x1_0000_0000
    }

    /// The version of the key, which orders handles of one slot.
    pub open spec fn version(self) -> int {
        self.0 as int / 0x1_0000_0000
    }
}

/// The colour of an object during a collection.
#[derive(Clone, Copy, PartialEq, Eq, Structural, Debug, Hash)]
pub enum GcMark {
    White,
    Gray,
    Black,
}

/// What a heap object holds.
pub enum GcData {
    String(String),
    Vec(Vec<Value>),
    Struct(Vec<Value>),
}

/// A heap object with its collection mark.
pub struct GcValue {
    pub mark: GcMark,
    pub data: GcData,
}

/// What a heap object holds, as mathematical values.
pub enum DataView {
    Str(Seq<char>),
    Vec(Seq<Value>),
    Struct(Seq<Value>),
}

/// A heap object as mathematical values.
pub struct ObjView {
    pub mark: GcMark,
    pub data: DataView,
}

/// The mathematical value of what a heap object holds.
pub open spec fn data_view(d: GcData) -> DataView {
    match d {
        GcData::String(s) => DataView::Str(s@),
        GcData::Vec(v) => DataView::Vec(v@),
        GcData::Struct(v) => DataView::Struct(v@),
    }
}

/// The mathematical value of a heap object.
pub open spec fn obj_view(g: GcValue) -> ObjView {
    ObjView { mark: g.mark, data: data_view(g.data) }
}

/// A value of the virtual machine. A float is held as the bits of its IEEE
/// 754 binary64 encoding; arithmetic on floats is done by the host.
#[derive(Clone, Copy, PartialEq, Eq, Structural, Debug)]
pub enum Value {
    Nil,
    Bool(bool),
    Int(i64),
    Float(u64),
    String(GcHandle),
    Struct(GcHandle),
    Vec(GcHandle),
    Fn(u32),
}

impl Value {
    /// The heap handle a value holds, if any.
    pub open spec fn handle(self) -> Option<GcHandle> {
        match self {
            Value::String(h) => Some(h),
            Value::Struct(h) => Some(h),
            Value::Vec(h) => Some(h),
            _ => None,
        }
    }

    /// The heap handle a value holds, if any.
    pub fn as_handle(&self) -> (r: Option<GcHandle>)
        ensures
            r == self.handle(),
    {
        match self {
            Value::String(h) => Some(*h),
            Value::Struct(h) => Some(*h),
            Value::Vec(h) => Some(*h),
            _ => None,
        }
    }
}

/// The memory of the virtual machine: the parameter stack, the frames of
/// locals and temporaries, the globals, the constants and the heap.
pub struct Mem {
    pub stack: Vec<Value>,
    pub local: Vec<Value>,
    pub temp: Vec<Value>,
    pub global: Vec<Value>,
    pub consts: Vec<Value>,
    pub heap: Heap,
}

impl Mem {
    /// The heap's objects by handle number.
    pub open spec fn objects(&self) -> Map<u64, GcValue> {
        heap_contents(self.heap)
    }

    /// The heap's objects by handle number, as mathematical values.
    pub open spec fn heap_view(&self) -> Map<u64, ObjView> {
        self.objects().map_values(|g: GcValue| obj_view(g))
    }

    /// The number of objects on the heap.
    pub fn object_count(&self) -> (n: usize)
        ensures
            n == self.objects().dom().len(),
    {
        heap_len(&self.heap)
    }

    /// The heap holds finitely many objects, each under the number of a live
    /// key.
    pub open spec fn sound(&self) -> bool {
        &&& self.objects().dom().finite()
        &&& forall|k: u64| #[trigger] self.objects().dom().contains(k) ==> canonical(k) == k
    }

    /// Every object of the heap is unmarked.
    pub open spec fn unmarked(&self) -> bool {
        forall|k: u64| #[trigger] self.objects().dom().contains(k) ==> self.objects()[k].mark == GcMark::White
    }

    /// The heap is sound and, as between collections, every object in it is
    /// unmarked.
    pub open spec fn wf(&self) -> bool {
        &&& self.sound()
        &&& self.unmarked()
    }

    /// Empty memory.
    pub fn new() -> (m: Mem)
        ensures
            m.wf(),
            m.stack@.len() == 0,
            m.local@.len() == 0,
            m.temp@.len() == 0,
            m.global@.len() == 0,
            m.consts@.len() == 0,
            m.objects().dom() =~= Set::<u64>::empty(),
    {
        Mem {
            stack: Vec::new(),
            local: Vec::new(),
            temp: Vec::new(),
            global: Vec::new(),
            consts: Vec::new(),
            heap: heap_new(),
        }
    }

    /// Whether a handle names an object of the heap.
    pub open spec fn holds(&self, handle: GcHandle) -> bool {
        self.objects().dom().contains(handle.0)
    }

    /// Whether a handle names an object of the heap.
    pub fn contains(&self, handle: GcHandle) -> (b: bool)
        requires
            self.wf(),
        ensures
            b == self.holds(handle),
    {
        (handle.0 | 0x1_0000_0000) == handle.0 && heap_contains(&self.heap, handle.0)
    }

    /// The data of a heap object.
    pub fn get(&self, handle: GcHandle) -> (d: &GcData)
        requires
            self.wf(),
            self.holds(handle),
        ensures
            *d == self.objects()[handle.0].data,
    {
        &heap_get(&self.heap, handle.0).unwrap().data
    }

    /// The data of a heap object, to change it in place; the object keeps
    /// its mark.
    pub fn get_mut(&mut self, handle: GcHandle) -> (d: &mut GcData)
        requires
            old(self).wf(),
            old(self).holds(handle),
        ensures
            final(self).wf(),
            *d == old(self).objects()[handle.0].data,
            final(self).objects() == old(self).objects().insert(
                handle.0,
                GcValue { mark: old(self).objects()[handle.0].mark, data: *final(d) },
            ),
            final(self).stack == old(self).stack,
            final(self).local == old(self).local,
            final(self).temp == old(self).temp,
            final(self).global == old(self).global,
            final(self).consts == old(self).consts,
    {
        &mut heap_get_mut(&mut self.heap, handle.0).data
    }

    /// Stores new data on the heap, unmarked, under a fresh handle.
    pub fn allocate(&mut self, data: GcData) -> (h: GcHandle)
        requires
            old(self).wf(),
            old(self).objects().dom().len() + 2 < u32::MAX,
        ensures
            final(self).wf(),
            !old(self).holds(h),
            final(self).objects() == old(self).objects().insert(
                h.0,
                GcValue { mark: GcMark::White, data },
            ),
            final(self).stack == old(self).stack,
            final(self).local == old(self).local,
            final(self).temp == old(self).temp,
            final(self).global == old(self).global,
            final(self).consts == old(self).consts,
    {
        GcHandle(heap_insert(&mut self.heap, GcValue { data, mark: GcMark::White }))
    }

    /// Pushes a value on the parameter stack.
    pub fn push_stack(&mut self, value: Value)
        ensures
            final(self).stack@ == old(self).stack@.push(value),
            final(self).local == old(self).local,
            final(self).temp == old(self).temp,
            final(self).global == old(self).global,
            final(self).consts == old(self).consts,
            final(self).heap == old(self).heap,
    {
        self.stack.push(value);
    }
}

/// The values a collection starts from: the parameter stack, the globals,
/// the locals, the temporaries and the constants, in that order.
pub open spec fn roots(m: &Mem) -> Seq<Value> {
    m.stack@ + m.global@ + m.local@ + m.temp@ + m.consts@
}

/// One of `values` holds the handle numbered `h`.
pub open spec fn holds_handle(values: Seq<Value>, h: u64) -> bool {
    exists|i: int| 0 <= i < values.len() && values[i].handle() == Some(GcHandle(h))
}

/// An object refers to the object numbered `h`: one of its values holds
/// that handle.
pub open spec fn refers(g: GcValue, h: u64) -> bool {
    match g.data {
        GcData::String(_) => false,
        GcData::Vec(vs) => holds_handle(vs@, h),
        GcData::Struct(vs) => holds_handle(vs@, h),
    }
}

/// `path` leads from a root to its last object: a root holds the handle of
/// the first, and each object of it refers to the next.
pub open spec fn is_path(objs: Map<u64, GcValue>, roots: Seq<Value>, path: Seq<u64>) -> bool {
    &&& path.len() > 0
    &&& holds_handle(roots, path[0])
    &&& forall|i: int|
        0 <= i < path.len() - 1 ==> objs.dom().contains(#[trigger] path[i]) && refers(objs[path[i]], path[i + 1])
}

/// The object numbered `h` is reached from `roots`.
pub open spec fn reachable(objs: Map<u64, GcValue>, roots: Seq<Value>, h: u64) -> bool {
    exists|path: Seq<u64>| #[trigger] is_path(objs, roots, path) && path.last() == h
}

/// Every handle held by a root or by an object names an object of the heap.
pub open spec fn no_dangling(objs: Map<u64, GcValue>, roots: Seq<Value>) -> bool {
    &&& forall|h: u64| #[trigger] holds_handle(roots, h) ==> objs.dom().contains(h)
    &&& forall|j: u64, h: u64|
        objs.dom().contains(j) && #[trigger] refers(objs[j], h) ==> objs.dom().contains(h)
}

/// The objects of a heap that are reached from `roots`, as they are.
pub open spec fn collected(objs: Map<u64, GcValue>, roots: Seq<Value>) -> Map<u64, GcValue> {
    Map::new(|k: u64| objs.dom().contains(k) && reachable(objs, roots, k), |k: u64| objs[k])
}

/// The objects of `objs` that are not yet black.
pub open spec fn pending(objs: Map<u64, GcValue>) -> Set<u64> {
    objs.dom().filter(|k: u64| objs[k].mark != GcMark::Black)
}

/// The state of a collection in progress over the objects `objs0`: the
/// same objects with the same data; the queue holds live handles and every
/// gray object; every object a black one refers to is marked; and every
/// marked object is reached from the roots.
pub open spec fn tracing(objs0: Map<u64, GcValue>, rs: Seq<Value>, objs: Map<u64, GcValue>, queue: Seq<GcHandle>) -> bool {
    &&& objs.dom() == objs0.dom()
    &&& forall|k: u64| #[trigger] objs.dom().contains(k) ==> objs[k].data == objs0[k].data
    &&& forall|i: int| 0 <= i < queue.len() ==> objs.dom().contains(#[trigger] queue[i].0)
    &&& forall|k: u64|
        objs.dom().contains(k) && #[trigger] objs[k].mark == GcMark::Gray ==> exists|i: int|
            0 <= i < queue.len() && #[trigger] queue[i].0 == k
    &&& forall|k: u64, h: u64|
        objs.dom().contains(k) && objs[k].mark == GcMark::Black && #[trigger] refers(objs0[k], h)
            ==> objs[h].mark != GcMark::White
    &&& forall|k: u64|
        objs.dom().contains(k) && #[trigger] objs[k].mark != GcMark::White ==> reachable(objs0, rs, k)
}

/// The handles `values` hold, in order.
pub open spec fn handles_of(values: Seq<Value>) -> Seq<GcHandle>
    decreases values.len(),
{
    if values.len() == 0 {
        Seq::empty()
    } else {
        let rest = handles_of(values.drop_last());
        match values.last().handle() {
            Some(h) => rest.push(h),
            None => rest,
        }
    }
}

/// The handles of `values` are exactly those that one of them holds.
proof fn lemma_handles_of(values: Seq<Value>)
    ensures
        forall|i: int|
            0 <= i < handles_of(values).len() ==> holds_handle(values, #[trigger] handles_of(values)[i].0),
        forall|h: u64|
            #[trigger] holds_handle(values, h) ==> exists|i: int|
                0 <= i < handles_of(values).len() && handles_of(values)[i].0 == h,
    decreases values.len(),
{
    if values.len() > 0 {
        let init = values.drop_last();
        lemma_handles_of(init);
        let hs = handles_of(values);
        let rest = handles_of(init);
        assert forall|i: int| 0 <= i < hs.len() implies holds_handle(values, #[trigger] hs[i].0) by {
            if i < rest.len() {
                assert(hs[i] == rest[i]);
                assert(holds_handle(init, rest[i].0));
                let k = choose|k: int| 0 <= k < init.len() && init[k].handle() == Some(GcHandle(rest[i].0));
                assert(values[k] == init[k]);
            } else {
                assert(values[values.len() - 1].handle() == Some(hs[i]));
            }
        }
        assert forall|h: u64| #[trigger] holds_handle(values, h) implies exists|i: int|
            0 <= i < hs.len() && hs[i].0 == h by {
            let k = choose|k: int| 0 <= k < values.len() && values[k].handle() == Some(GcHandle(h));
            if k < values.len() - 1 {
                assert(init[k] == values[k]);
                assert(holds_handle(init, h));
                let i = choose|i: int| 0 <= i < rest.len() && rest[i].0 == h;
                assert(hs[i] == rest[i]);
            } else {
                assert(hs[hs.len() - 1] == GcHandle(h));
            }
        }
    }
}

/// Queues the handles `values` hold, in order.
fn push_handles(queue: &mut VecDeque<GcHandle>, values: &Vec<Value>)
    ensures
        final(queue)@ == old(queue)@ + handles_of(values@),
{
    let mut i: usize = 0;
    while i < values.len()
        invariant
            i <= values@.len(),
            queue@ == old(queue)@ + handles_of(values@.take(i as int)),
        decreases values@.len() - i,
    {
        proof {
            assert(values@.take(i + 1).drop_last() =~= values@.take(i as int));
        }
        if let Some(h) = values[i].as_handle() {
            queue.push_back(h);
        }
        i = i + 1;
    }
    proof {
        assert(values@.take(i as int) =~= values@);
    }
}

/// The handle of the value at position `i` of the roots names a marked
/// object.
pub open spec fn root_marked(objs: Map<u64, GcValue>, rs: Seq<Value>, i: int) -> bool {
    rs[i].handle() matches Some(h) ==> objs[h.0].mark != GcMark::White
}

/// Marks gray and queues the object of every handle that `values` hold;
/// `values` are the roots from position `off` on.
fn gray_values(
    queue: &mut VecDeque<GcHandle>,
    heap: &mut Heap,
    values: &Vec<Value>,
    Ghost(objs0): Ghost<Map<u64, GcValue>>,
    Ghost(rs): Ghost<Seq<Value>>,
    Ghost(off): Ghost<int>,
)
    requires
        tracing(objs0, rs, heap_contents(*old(heap)), old(queue)@),
        no_dangling(objs0, rs),
        forall|k: u64| #[trigger] objs0.dom().contains(k) ==> canonical(k) == k,
        0 <= off,
        off + values@.len() <= rs.len(),
        values@ == rs.subrange(off, off + values@.len()),
        forall|i: int| 0 <= i < off ==> #[trigger] root_marked(heap_contents(*old(heap)), rs, i),
    ensures
        tracing(objs0, rs, heap_contents(*final(heap)), final(queue)@),
        forall|i: int|
            0 <= i < off + values@.len() ==> #[trigger] root_marked(heap_contents(*final(heap)), rs, i),
{
    let mut i: usize = 0;
    while i < values.len()
        invariant
            i <= values@.len(),
            tracing(objs0, rs, heap_contents(*heap), queue@),
            no_dangling(objs0, rs),
            forall|k: u64| #[trigger] objs0.dom().contains(k) ==> canonical(k) == k,
            0 <= off,
            off + values@.len() <= rs.len(),
            values@ == rs.subrange(off, off + values@.len()),
            forall|j: int| 0 <= j < off + i ==> #[trigger] root_marked(heap_contents(*heap), rs, j),
        decreases values@.len() - i,
    {
        let ghost before = heap_contents(*heap);
        let ghost q0 = queue@;
        if let Some(h) = values[i].as_handle() {
            proof {
                assert(rs[off + i] == values@[i as int]);
                assert(holds_handle(rs, h.0));
                assert(is_path(objs0, rs, seq![h.0]));
            }
            set_mark(heap, h, GcMark::Gray);
            queue.push_back(h);
            proof {
                let after = heap_contents(*heap);
                assert(after.dom() =~= before.dom());
                assert(queue@[queue@.len() - 1].0 == h.0);
                assert forall|k: u64|
                    after.dom().contains(k) && #[trigger] after[k].mark == GcMark::Gray implies exists|j: int|
                    0 <= j < queue@.len() && #[trigger] queue@[j].0 == k by {
                    if k != h.0 {
                        let j = choose|j: int| 0 <= j < q0.len() && q0[j].0 == k;
                        assert(queue@[j] == q0[j]);
                    }
                }
                assert forall|j: int| 0 <= j < off + i + 1 implies #[trigger] root_marked(after, rs, j) by {
                    if j < off + i {
                        assert(root_marked(before, rs, j));
                    }
                }
            }
        } else {
            proof {
                assert(rs[off + i] == values@[i as int]);
                assert forall|j: int| 0 <= j < off + i + 1 implies #[trigger] root_marked(heap_contents(*heap), rs, j) by {
                    if j < off + i {
                        assert(root_marked(before, rs, j));
                    }
                }
            }
        }
        i = i + 1;
    }
}

/// The handles an object holds, in order.
pub open spec fn children_of(g: GcValue) -> Seq<GcHandle> {
    match g.data {
        GcData::String(_) => Seq::empty(),
        GcData::Vec(vs) => handles_of(vs@),
        GcData::Struct(vs) => handles_of(vs@),
    }
}

/// The handles of an object are exactly those it refers to.
proof fn lemma_children_of(g: GcValue)
    ensures
        forall|i: int| 0 <= i < children_of(g).len() ==> refers(g, #[trigger] children_of(g)[i].0),
        forall|h: u64| #[trigger] refers(g, h) ==> exists|i: int|
            0 <= i < children_of(g).len() && children_of(g)[i].0 == h,
{
    match g.data {
        GcData::String(_) => {
            assert forall|h: u64| #[trigger] refers(g, h) implies false by {};
        },
        GcData::Vec(vs) => {
            lemma_handles_of(vs@);
            assert forall|h: u64| #[trigger] refers(g, h) implies exists|i: int|
                0 <= i < children_of(g).len() && children_of(g)[i].0 == h by {
                assert(holds_handle(vs@, h));
                assert(children_of(g) == handles_of(vs@));
                let i = choose|i: int| 0 <= i < handles_of(vs@).len() && handles_of(vs@)[i].0 == h;
                assert(children_of(g)[i].0 == h);
            }
        },
        GcData::Struct(vs) => {
            lemma_handles_of(vs@);
            assert forall|h: u64| #[trigger] refers(g, h) implies exists|i: int|
                0 <= i < children_of(g).len() && children_of(g)[i].0 == h by {
                assert(holds_handle(vs@, h));
                assert(children_of(g) == handles_of(vs@));
                let i = choose|i: int| 0 <= i < handles_of(vs@).len() && handles_of(vs@)[i].0 == h;
                assert(children_of(g)[i].0 == h);
            }
        },
    }
}

/// Every object on a path from the roots is marked, when every root is
/// marked, no object is gray and every object a black one refers to is
/// marked.
proof fn lemma_path_marked(
    objs0: Map<u64, GcValue>,
    rs: Seq<Value>,
    objs: Map<u64, GcValue>,
    queue: Seq<GcHandle>,
    path: Seq<u64>,
)
    requires
        tracing(objs0, rs, objs, queue),
        no_dangling(objs0, rs),
        forall|i: int| 0 <= i < rs.len() ==> #[trigger] root_marked(objs, rs, i),
        forall|k: u64| objs.dom().contains(k) ==> #[trigger] objs[k].mark != GcMark::Gray,
        is_path(objs0, rs, path),
    ensures
        objs.dom().contains(path.last()),
        objs[path.last()].mark != GcMark::White,
    decreases path.len(),
{
    if path.len() == 1 {
        let h = path[0];
        assert(holds_handle(rs, h));
        let i = choose|i: int| 0 <= i < rs.len() && rs[i].handle() == Some(GcHandle(h));
        assert(root_marked(objs, rs, i));
    } else {
        let init = path.drop_last();
        assert(is_path(objs0, rs, init)) by {
            assert forall|i: int| 0 <= i < init.len() - 1 implies objs0.dom().contains(#[trigger] init[i])
                && refers(objs0[init[i]], init[i + 1]) by {
                assert(init[i] == path[i] && init[i + 1] == path[i + 1]);
            }
        }
        lemma_path_marked(objs0, rs, objs, queue, init);
        let j = init.last();
        assert(path[path.len() - 2] == j);
        assert(objs0.dom().contains(j) && refers(objs0[j], path.last()));
        assert(objs[j].mark == GcMark::Black);
    }
}

/// Turns the gray object `h`, just taken from the front of the queue
/// (`q0` before that), black, queues the objects it refers to and grays
/// those of them that are unmarked.
fn scan(
    queue: &mut VecDeque<GcHandle>,
    heap: &mut Heap,
    h: GcHandle,
    Ghost(objs0): Ghost<Map<u64, GcValue>>,
    Ghost(rs): Ghost<Seq<Value>>,
    Ghost(q0): Ghost<Seq<GcHandle>>,
)
    requires
        tracing(objs0, rs, heap_contents(*old(heap)), q0),
        q0.len() > 0,
        q0[0] == h,
        old(queue)@ == q0.subrange(1, q0.len() as int),
        heap_contents(*old(heap))[h.0].mark == GcMark::Gray,
        no_dangling(objs0, rs),
        objs0.dom().finite(),
        forall|k: u64| #[trigger] objs0.dom().contains(k) ==> canonical(k) == k,
        forall|j: int| 0 <= j < rs.len() ==> #[trigger] root_marked(heap_contents(*old(heap)), rs, j),
    ensures
        tracing(objs0, rs, heap_contents(*final(heap)), final(queue)@),
        forall|j: int| 0 <= j < rs.len() ==> #[trigger] root_marked(heap_contents(*final(heap)), rs, j),
        pending(heap_contents(*final(heap))).len() < pending(heap_contents(*old(heap))).len(),
{
    let ghost before = heap_contents(*heap);
    proof {
        assert(before.dom().contains(h.0));
    }
    set_mark(heap, h, GcMark::Black);
    let ghost blacked = heap_contents(*heap);
    proof {
        assert forall|j: int| 0 <= j < rs.len() implies #[trigger] root_marked(blacked, rs, j) by {
            assert(root_marked(before, rs, j));
        }
    }
    let ghost q1 = queue@;
    let start = queue.len();
    {
        let value = heap_get(heap, h.0).unwrap();
        match &value.data {
            GcData::String(_) => {},
            GcData::Vec(values) => {
                push_handles(queue, values);
            },
            GcData::Struct(values) => {
                push_handles(queue, values);
            },
        }
    }
    let end = queue.len();
    let ghost kids = children_of(objs0[h.0]);
    proof {
        assert(queue@ == q1 + kids);
        lemma_children_of(objs0[h.0]);
        let p = choose|p: Seq<u64>| #[trigger] is_path(objs0, rs, p) && p.last() == h.0;
        assert forall|k: u64|
            blacked.dom().contains(k) && #[trigger] blacked[k].mark == GcMark::Gray implies exists|j: int|
            0 <= j < queue@.len() && #[trigger] queue@[j].0 == k by {
            let j = choose|j: int| 0 <= j < q0.len() && q0[j].0 == k;
            assert(j != 0);
            assert(queue@[j - 1] == q0[j]);
        }
    }
    let mut i = start;
    while i < end
        invariant
            start <= i <= end,
            start == q1.len(),
            end == queue@.len(),
            queue@ == q1 + kids,
            kids == children_of(objs0[h.0]),
            forall|j: int| 0 <= j < kids.len() ==> refers(objs0[h.0], #[trigger] kids[j].0),
            objs0.dom().contains(h.0),
            reachable(objs0, rs, h.0),
            heap_contents(*heap).dom() == objs0.dom(),
            heap_contents(*heap)[h.0].mark == GcMark::Black,
            forall|k: u64|
                #[trigger] heap_contents(*heap).dom().contains(k) ==> heap_contents(*heap)[k].data
                    == objs0[k].data && (heap_contents(*heap)[k].mark == GcMark::Black
                    <==> blacked[k].mark == GcMark::Black) && (blacked[k].mark != GcMark::White
                    ==> heap_contents(*heap)[k].mark != GcMark::White),
            forall|k: u64|
                heap_contents(*heap).dom().contains(k) && #[trigger] heap_contents(*heap)[k].mark
                    == GcMark::Gray ==> exists|j: int|
                    0 <= j < queue@.len() && #[trigger] queue@[j].0 == k,
            forall|j: int|
                start <= j < i ==> heap_contents(*heap)[#[trigger] queue@[j].0].mark
                    != GcMark::White,
            forall|k: u64|
                heap_contents(*heap).dom().contains(k) && #[trigger] heap_contents(*heap)[k].mark
                    != GcMark::White ==> reachable(objs0, rs, k),
            forall|j: int| 0 <= j < queue@.len() ==> objs0.dom().contains(#[trigger] queue@[j].0),
            forall|k: u64, c: u64|
                heap_contents(*heap).dom().contains(k) && k != h.0 && heap_contents(*heap)[k].mark
                    == GcMark::Black && #[trigger] refers(objs0[k], c) ==> heap_contents(*heap)[c].mark
                    != GcMark::White,
            no_dangling(objs0, rs),
            objs0.dom().finite(),
            forall|k: u64| #[trigger] objs0.dom().contains(k) ==> canonical(k) == k,
            forall|j: int| 0 <= j < rs.len() ==> #[trigger] root_marked(heap_contents(*heap), rs, j),
        decreases end - i,
    {
        let c = queue[i];
        let ghost cur = heap_contents(*heap);
        proof {
            assert(queue@[i as int] == kids[i - start]);
        }
        if mark_of(heap, c) == GcMark::White {
            set_mark(heap, c, GcMark::Gray);
            proof {
                let p = choose|p: Seq<u64>| #[trigger] is_path(objs0, rs, p) && p.last() == h.0;
                let q = p.push(c.0);
                assert(is_path(objs0, rs, q)) by {
                    assert forall|j: int| 0 <= j < q.len() - 1 implies objs0.dom().contains(
                        #[trigger] q[j],
                    ) && refers(objs0[q[j]], q[j + 1]) by {
                        if j < p.len() - 1 {
                            assert(q[j] == p[j] && q[j + 1] == p[j + 1]);
                        } else {
                            assert(q[j] == h.0);
                        }
                    }
                }
                let after = heap_contents(*heap);
                assert(after.dom() =~= cur.dom());
                assert forall|j: int| 0 <= j < rs.len() implies #[trigger] root_marked(after, rs, j) by {
                    assert(root_marked(cur, rs, j));
                }
                assert forall|j: int| start <= j < i + 1 implies after[#[trigger] queue@[j].0].mark
                    != GcMark::White by {
                    if j < i {
                        assert(cur[queue@[j].0].mark != GcMark::White);
                    }
                }
            }
        }
        i = i + 1;
    }
    proof {
        let cur = heap_contents(*heap);
        assert forall|k: u64, c: u64|
            cur.dom().contains(k) && cur[k].mark == GcMark::Black && #[trigger] refers(objs0[k], c)
                implies cur[c].mark != GcMark::White by {
            if k == h.0 {
                let j = choose|j: int| 0 <= j < kids.len() && kids[j].0 == c;
                assert(queue@[start + j] == kids[j]);
            }
        }
        assert(pending(cur) =~= pending(before).remove(h.0));
        vstd::set_lib::lemma_len_subset(pending(before), objs0.dom());
    }
}

/// A mark-and-sweep collector of the heap.
pub struct Tracer {
    queue: VecDeque<GcHandle>,
}

impl Tracer {
    /// The handles waiting in the queue.
    pub closed spec fn queued(&self) -> Seq<GcHandle> {
        self.queue@
    }

    /// A collector with nothing queued.
    pub fn new() -> (t: Tracer)
        ensures
            t.queued().len() == 0,
    {
        Tracer { queue: VecDeque::new() }
    }

    /// Collects the garbage of the heap: the objects that no chain of
    /// handles from the roots reaches are removed, and the others stay as
    /// they are. A handle that names no object (of a root or of an object)
    /// would stop the collection.
    pub fn start_gc(&mut self, mem: &mut Mem)
        requires
            old(mem).wf(),
            no_dangling(old(mem).objects(), roots(old(mem))),
        ensures
            final(mem).wf(),
            final(mem).objects() == collected(old(mem).objects(), roots(old(mem))),
            final(mem).stack == old(mem).stack,
            final(mem).local == old(mem).local,
            final(mem).temp == old(mem).temp,
            final(mem).global == old(mem).global,
            final(mem).consts == old(mem).consts,
    {
        let ghost objs0 = mem.objects();
        let ghost rs = roots(mem);
        self.mark(mem);
        let ghost marked = mem.objects();
        self.clean(mem);
        proof {
            assert(mem.objects() =~= collected(objs0, rs)) by {
                assert forall|k: u64| #[trigger] mem.objects().dom().contains(k) implies mem.objects()[k]
                    == objs0[k] by {
                    assert(marked.dom().contains(k));
                }
            }
        }
    }

    /// Removes the unmarked objects and unmarks the others.
    fn clean(&self, mem: &mut Mem)
        requires
            old(mem).sound(),
        ensures
            final(mem).sound(),
            final(mem).unmarked(),
            final(mem).objects() == swept(old(mem).objects()),
            final(mem).stack == old(mem).stack,
            final(mem).local == old(mem).local,
            final(mem).temp == old(mem).temp,
            final(mem).global == old(mem).global,
            final(mem).consts == old(mem).consts,
    {
        heap_sweep(&mut mem.heap);
        proof {
            vstd::set_lib::lemma_len_subset(mem.objects().dom(), old(mem).objects().dom());
        }
    }

    /// Marks every object reached from the roots: it queues the objects of
    /// the roots, gray, then takes the queue in order, turns each gray object
    /// black and grays the unmarked objects it refers to.
    fn mark(&mut self, mem: &mut Mem)
        requires
            old(mem).sound(),
            old(mem).unmarked(),
            no_dangling(old(mem).objects(), roots(old(mem))),
        ensures
            final(mem).sound(),
            final(mem).objects().dom() == old(mem).objects().dom(),
            forall|k: u64|
                #[trigger] final(mem).objects().dom().contains(k) ==> final(mem).objects()[k].data
                    == old(mem).objects()[k].data && (final(mem).objects()[k].mark != GcMark::White
                    <==> reachable(old(mem).objects(), roots(old(mem)), k)),
            final(mem).stack == old(mem).stack,
            final(mem).local == old(mem).local,
            final(mem).temp == old(mem).temp,
            final(mem).global == old(mem).global,
            final(mem).consts == old(mem).consts,
    {
        self.queue.clear();
        let ghost objs0 = mem.objects();
        let ghost rs = roots(mem);
        let ghost n1 = mem.stack@.len() as int;
        let ghost n2 = n1 + mem.global@.len();
        let ghost n3 = n2 + mem.local@.len();
        let ghost n4 = n3 + mem.temp@.len();
        proof {
            assert(rs.subrange(0, n1) =~= mem.stack@);
            assert(rs.subrange(n1, n2) =~= mem.global@);
            assert(rs.subrange(n2, n3) =~= mem.local@);
            assert(rs.subrange(n3, n4) =~= mem.temp@);
            assert(rs.subrange(n4, rs.len() as int) =~= mem.consts@);
        }
        gray_values(&mut self.queue, &mut mem.heap, &mem.stack, Ghost(objs0), Ghost(rs), Ghost(0));
        gray_values(&mut self.queue, &mut mem.heap, &mem.global, Ghost(objs0), Ghost(rs), Ghost(n1));
        gray_values(&mut self.queue, &mut mem.heap, &mem.local, Ghost(objs0), Ghost(rs), Ghost(n2));
        gray_values(&mut self.queue, &mut mem.heap, &mem.temp, Ghost(objs0), Ghost(rs), Ghost(n3));
        gray_values(&mut self.queue, &mut mem.heap, &mem.consts, Ghost(objs0), Ghost(rs), Ghost(n4));
        loop
            invariant
                tracing(objs0, rs, heap_contents(mem.heap), self.queue@),
                no_dangling(objs0, rs),
                objs0.dom().finite(),
                forall|k: u64| #[trigger] objs0.dom().contains(k) ==> canonical(k) == k,
                forall|i: int| 0 <= i < rs.len() ==> #[trigger] root_marked(heap_contents(mem.heap), rs, i),
                objs0 == old(mem).objects(),
                rs == roots(old(mem)),
                mem.stack == old(mem).stack,
                mem.local == old(mem).local,
                mem.temp == old(mem).temp,
                mem.global == old(mem).global,
                mem.consts == old(mem).consts,
            ensures
                tracing(objs0, rs, heap_contents(mem.heap), self.queue@),
                self.queue@.len() == 0,
                forall|i: int| 0 <= i < rs.len() ==> #[trigger] root_marked(heap_contents(mem.heap), rs, i),
                mem.stack == old(mem).stack,
                mem.local == old(mem).local,
                mem.temp == old(mem).temp,
                mem.global == old(mem).global,
                mem.consts == old(mem).consts,
            decreases pending(heap_contents(mem.heap)).len(), self.queue@.len(),
        {
            let ghost q0 = self.queue@;
            let ghost before = heap_contents(mem.heap);
            let popped = self.queue.pop_front();
            let h = match popped {
                Some(h) => h,
                None => {
                    break;
                },
            };
            proof {
                assert(before.dom().contains(q0[0].0));
            }
            if mark_of(&mem.heap, h) != GcMark::Gray {
                proof {
                    assert forall|k: u64|
                        before.dom().contains(k) && #[trigger] before[k].mark == GcMark::Gray implies exists|j: int|
                        0 <= j < self.queue@.len() && #[trigger] self.queue@[j].0 == k by {
                        let j = choose|j: int| 0 <= j < q0.len() && q0[j].0 == k;
                        assert(j != 0);
                        assert(self.queue@[j - 1] == q0[j]);
                    }
                }
                continue;
            }
            scan(&mut self.queue, &mut mem.heap, h, Ghost(objs0), Ghost(rs), Ghost(q0));
        }
        proof {
            let cur = heap_contents(mem.heap);
            assert forall|k: u64| #[trigger] cur.dom().contains(k) implies cur[k].data == objs0[k].data && (
            cur[k].mark != GcMark::White <==> reachable(objs0, rs, k)) by {
                if reachable(objs0, rs, k) {
                    let p = choose|p: Seq<u64>| #[trigger] is_path(objs0, rs, p) && p.last() == k;
                    assert forall|m: u64| cur.dom().contains(m) implies #[trigger] cur[m].mark != GcMark::Gray by {
                        if cur[m].mark == GcMark::Gray {
                            let j = choose|j: int| 0 <= j < self.queue@.len() && self.queue@[j].0 == m;
                        }
                    }
                    lemma_path_marked(objs0, rs, cur, self.queue@, p);
                }
            }
        }
    }
}

/// The prefix of a path up to position `i` is a path.
proof fn lemma_path_prefix(objs: Map<u64, GcValue>, roots: Seq<Value>, path: Seq<u64>, i: int)
    requires
        is_path(objs, roots, path),
        0 <= i < path.len(),
    ensures
        is_path(objs, roots, path.take(i + 1)),
{
    let q = path.take(i + 1);
    assert forall|j: int| 0 <= j < q.len() - 1 implies objs.dom().contains(#[trigger] q[j]) && refers(
        objs[q[j]],
        q[j + 1],
    ) by {
        assert(q[j] == path[j] && q[j + 1] == path[j + 1]);
    }
}

/// A collection leaves nothing more to collect: when no handle dangles, the
/// objects it keeps hold no dangling handle either, and collecting them
/// again keeps them all, unchanged.
pub proof fn law_collect_idempotent(objs: Map<u64, GcValue>, roots: Seq<Value>)
    requires
        no_dangling(objs, roots),
    ensures
        no_dangling(collected(objs, roots), roots),
        collected(collected(objs, roots), roots) == collected(objs, roots),
{
    let c = collected(objs, roots);
    // A path over all objects stays within the objects kept, so it is a
    // path over them.
    assert forall|p: Seq<u64>| #[trigger] is_path(objs, roots, p) implies is_path(c, roots, p) by {
        assert forall|j: int| 0 <= j < p.len() - 1 implies c.dom().contains(#[trigger] p[j]) && refers(
            c[p[j]],
            p[j + 1],
        ) by {
            lemma_path_prefix(objs, roots, p, j);
            assert(p.take(j + 1).last() == p[j]);
        }
    }
    // A path over the objects kept is one over all objects.
    assert forall|p: Seq<u64>| #[trigger] is_path(c, roots, p) implies is_path(objs, roots, p) by {
        assert forall|j: int| 0 <= j < p.len() - 1 implies objs.dom().contains(#[trigger] p[j]) && refers(
            objs[p[j]],
            p[j + 1],
        ) by {
            assert(c.dom().contains(p[j]));
        }
    }
    assert forall|h: u64| #[trigger] holds_handle(roots, h) implies c.dom().contains(h) by {
        assert(is_path(objs, roots, seq![h]));
    }
    assert forall|j: u64, h: u64| c.dom().contains(j) && #[trigger] refers(c[j], h) implies c.dom().contains(h) by {
        let p = choose|p: Seq<u64>| #[trigger] is_path(objs, roots, p) && p.last() == j;
        let q = p.push(h);
        assert(is_path(objs, roots, q)) by {
            assert forall|i: int| 0 <= i < q.len() - 1 implies objs.dom().contains(#[trigger] q[i]) && refers(
                objs[q[i]],
                q[i + 1],
            ) by {
                if i < p.len() - 1 {
                    assert(q[i] == p[i] && q[i + 1] == p[i + 1]);
                } else {
                    assert(q[i] == j);
                }
            }
        }
        assert(q.last() == h);
    }
    assert(collected(c, roots) =~= c) by {
        assert forall|k: u64| #[trigger] c.dom().contains(k) implies reachable(c, roots, k) by {
            let p = choose|p: Seq<u64>| #[trigger] is_path(objs, roots, p) && p.last() == k;
            assert(is_path(c, roots, p));
        }
        assert forall|k: u64| #[trigger] collected(c, roots).dom().contains(k) implies c.dom().contains(k) by {}
    }
}

} // verus!

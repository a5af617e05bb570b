//! The heap: reference-counted objects behind integer ids.

use vstd::prelude::*;
use std::collections::HashMap;
use crate::code::{Block, BlockView};
use crate::value::{Id, Value};

verus! {

/// An object that lives in the heap.
#[derive(Debug, PartialEq, Eq)]
pub enum ValueObj {
    /// A text.
    String(String),
    /// A cons cell: a head and the id of the rest of the list, if any.
    List(Value, Option<Id>),
    /// A present optional value.
    Present(Value),
    /// A record; the fields stand in declaration order.
    Struct(Vec<Value>),
    /// A closure.
    Block(Block),
}

/// What a `ValueObj` holds.
pub enum ObjView {
    Text(Seq<char>),
    List(Value, Option<Id>),
    Present(Value),
    Struct(Seq<Value>),
    Block(BlockView),
}

impl View for ValueObj {
    type V = ObjView;

    open spec fn view(&self) -> ObjView {
        match self {
            ValueObj::String(s) => ObjView::Text(s@),
            ValueObj::List(head, tail) => ObjView::List(*head, *tail),
            ValueObj::Present(v) => ObjView::Present(*v),
            ValueObj::Struct(fields) => ObjView::Struct(fields@),
            ValueObj::Block(b) => ObjView::Block(b@),
        }
    }
}

/// A heap entry: an object and the number of references to it.
#[derive(Debug, PartialEq, Eq)]
pub struct ValueRef {
    pub count: usize,
    pub value: ValueObj,
}

/// What a `ValueRef` holds.
pub struct RefView {
    pub count: usize,
    pub obj: ObjView,
}

impl View for ValueRef {
    type V = RefView;

    open spec fn view(&self) -> RefView {
        RefView { count: self.count, obj: self.value@ }
    }
}

/// The values that an object holds; when the object goes away they give up
/// their references, the last first. Texts and closures hold none.
pub open spec fn children(obj: ObjView) -> Seq<Value> {
    match obj {
        ObjView::List(head, Some(tail)) => seq![head, Value::Ptr(tail)],
        ObjView::List(head, None) => seq![head],
        ObjView::Present(v) => seq![v],
        ObjView::Struct(fields) => fields,
        _ => Seq::empty(),
    }
}

/// The heap after one more reference to `id` was counted.
pub open spec fn retained(h: Map<Id, RefView>, id: Id) -> Map<Id, RefView> {
    h.insert(id, RefView { count: (h[id].count + 1) as usize, obj: h[id].obj })
}

/// The heap after every value of `work` gave up one reference, last value
/// first. A pointer to an object with a count above one lowers the count. A
/// pointer to an object with a count of one or less removes the object, and
/// the values that the object held give up their references next. Scalars
/// and pointers to objects that are not there change nothing.
pub open spec fn release_all(h: Map<Id, RefView>, work: Seq<Value>) -> Map<Id, RefView>
    decreases h.dom().len(), work.len(),
    when h.dom().finite()
{
    if work.len() == 0 {
        h
    } else {
        let rest = work.drop_last();
        match work.last() {
            Value::Ptr(id) => if !h.contains_key(id) {
                release_all(h, rest)
            } else if h[id].count <= 1 {
                release_all(h.remove(id), rest + children(h[id].obj))
            } else {
                release_all(
                    h.insert(id, RefView { count: (h[id].count - 1) as usize, obj: h[id].obj }),
                    rest,
                )
            },
            _ => release_all(h, rest),
        }
    }
}

/// The heap after `v` gave up one reference.
pub open spec fn released(h: Map<Id, RefView>, v: Value) -> Map<Id, RefView> {
    release_all(h, seq![v])
}

/// Every object is counted at least once and has an id below `next_id`.
pub open spec fn heap_wf(h: Map<Id, RefView>, next_id: Id) -> bool {
    &&& h.dom().finite()
    &&& forall|id: Id| #[trigger] h.contains_key(id) ==> h[id].count >= 1 && id < next_id
}

/// The heap: objects by id, and the allocator of ids, which hands each id
/// out once.
#[derive(Debug)]
pub struct Heap {
    next_id: Id,
    values: HashMap<Id, ValueRef>,
}

impl View for Heap {
    type V = Map<Id, RefView>;

    closed spec fn view(&self) -> Map<Id, RefView> {
        Map::new(|id: Id| self.values@.contains_key(id), |id: Id| self.values@[id]@)
    }
}

impl Heap {
    /// Every object is counted at least once and has an id that the
    /// allocator has already handed out.
    pub open spec fn wf(&self) -> bool {
        heap_wf(self@, self.spec_next_id())
    }

    /// The id that the next allocation will use.
    pub closed spec fn spec_next_id(&self) -> Id {
        self.next_id
    }

    /// An empty heap whose first object will have id 0.
    pub fn new() -> (r: Heap)
        ensures
            r@ == Map::<Id, RefView>::empty(),
            r.spec_next_id() == 0,
            r.wf(),
    {
        let r = Heap { next_id: 0, values: HashMap::new() };
        assert(r@ =~= Map::<Id, RefView>::empty());
        r
    }

    /// Allocates `obj` under a new id, counted once, and returns the pointer
    /// to it.
    pub fn new_value(&mut self, obj: ValueObj) -> (r: Value)
        requires
            old(self).spec_next_id() < usize::MAX,
        ensures
            r == Value::Ptr(old(self).spec_next_id()),
            old(self).wf() ==> !old(self)@.contains_key(old(self).spec_next_id()),
            old(self).wf() ==> final(self).wf(),
            final(self)@ == old(self)@.insert(
                old(self).spec_next_id(),
                RefView { count: 1, obj: obj@ },
            ),
            final(self).spec_next_id() == old(self).spec_next_id() + 1,
    {
        let id = self.next_id;
        self.next_id = id + 1;
        self.values.insert(id, ValueRef { count: 1, value: obj });
        assert(self@ =~= old(self)@.insert(id, RefView { count: 1, obj: obj@ }));
        Value::Ptr(id)
    }

    /// A heap's model holds finitely many objects.
    pub proof fn lemma_finite(&self)
        ensures
            self@.dom().finite(),
    {
        assert(self@.dom() =~= self.values@.dom());
    }

    /// The id that the next allocation will use.
    pub fn next_id(&self) -> (r: Id)
        ensures
            r == self.spec_next_id(),
    {
        self.next_id
    }

    /// The object behind `id`, if there is one.
    pub fn get(&self, id: Id) -> (r: Option<&ValueObj>)
        ensures
            match r {
                Some(obj) => self@.contains_key(id) && obj@ == self@[id].obj,
                None => !self@.contains_key(id),
            },
    {
        match self.values.get(&id) {
            Some(entry) => Some(&entry.value),
            None => None,
        }
    }

    /// The number of references counted for `id`, if there is such an
    /// object.
    pub fn refcount(&self, id: Id) -> (r: Option<usize>)
        ensures
            r == (if self@.contains_key(id) {
                Some(self@[id].count)
            } else {
                None
            }),
    {
        match self.values.get(&id) {
            Some(entry) => Some(entry.count),
            None => None,
        }
    }

    /// Counts one more reference to the object behind `id`. Returns whether
    /// there is such an object; without one the heap stays as it is.
    pub fn retain_id(&mut self, id: Id) -> (ok: bool)
        requires
            old(self)@.contains_key(id) ==> old(self)@[id].count < usize::MAX,
        ensures
            ok == old(self)@.contains_key(id),
            final(self)@ == (if ok {
                retained(old(self)@, id)
            } else {
                old(self)@
            }),
            final(self).spec_next_id() == old(self).spec_next_id(),
            old(self).wf() ==> final(self).wf(),
    {
        match self.values.remove(&id) {
            Some(entry) => {
                self.values.insert(id, ValueRef { count: entry.count + 1, value: entry.value });
                assert(self@ =~= retained(old(self)@, id));
                true
            },
            None => {
                assert(self@ =~= old(self)@);
                false
            },
        }
    }

    /// Counts one more reference to what `value` points to. A scalar is not
    /// counted and always succeeds; a pointer succeeds if its object exists.
    pub fn retain(&mut self, value: &Value) -> (ok: bool)
        requires
            *value matches Value::Ptr(id) ==> (old(self)@.contains_key(id) ==> old(self)@[id].count
                < usize::MAX),
        ensures
            ok == (*value matches Value::Ptr(id) ==> old(self)@.contains_key(id)),
            final(self)@ == (match *value {
                Value::Ptr(id) if old(self)@.contains_key(id) => retained(old(self)@, id),
                _ => old(self)@,
            }),
            final(self).spec_next_id() == old(self).spec_next_id(),
            old(self).wf() ==> final(self).wf(),
    {
        match value {
            Value::Ptr(id) => self.retain_id(*id),
            _ => true,
        }
    }

    /// Lets every value of `work` give up one reference, last value first,
    /// and removes each object whose last reference went away, together
    /// with the references that it held.
    pub fn release_values(&mut self, values: Vec<Value>)
        ensures
            final(self)@ == release_all(old(self)@, values@),
            final(self).spec_next_id() == old(self).spec_next_id(),
            old(self).wf() ==> final(self).wf(),
    {
        let ghost wanted = release_all(self@, values@);
        let mut work = values;
        proof {
            self.lemma_finite();
        }
        while work.len() > 0
            invariant
                self@.dom().finite(),
                release_all(self@, work@) == wanted,
                self.spec_next_id() == old(self).spec_next_id(),
                old(self).wf() ==> self.wf(),
            decreases self@.dom().len(), work.len(),
        {
            let ghost before = self@;
            let ghost pending = work@;
            let v = work.pop().unwrap();
            assert(work@ == pending.drop_last());
            if let Value::Ptr(id) = v {
                match self.values.remove(&id) {
                    Some(entry) => {
                        assert(entry@ == before[id]);
                        if entry.count <= 1 {
                            assert(self@ =~= before.remove(id));
                            match entry.value {
                                ValueObj::List(head, tail) => {
                                    work.push(head);
                                    if let Some(t) = tail {
                                        work.push(Value::Ptr(t));
                                    }
                                },
                                ValueObj::Present(inner) => {
                                    work.push(inner);
                                },
                                ValueObj::Struct(fields) => {
                                    let mut fields = fields;
                                    work.append(&mut fields);
                                },
                                _ => {},
                            }
                            assert(work@ =~= pending.drop_last() + children(before[id].obj));
                        } else {
                            self.values.insert(
                                id,
                                ValueRef { count: entry.count - 1, value: entry.value },
                            );
                            assert(self@ =~= before.insert(
                                id,
                                RefView {
                                    count: (before[id].count - 1) as usize,
                                    obj: before[id].obj,
                                },
                            ));
                        }
                    },
                    None => {
                        assert(self@ =~= before);
                    },
                }
            }
            proof {
                self.lemma_finite();
            }
        }
    }

    /// Gives up one reference to the object behind `id`. Returns whether
    /// there is such an object; without one the heap stays as it is.
    pub fn release_id(&mut self, id: Id) -> (ok: bool)
        ensures
            ok == old(self)@.contains_key(id),
            final(self)@ == released(old(self)@, Value::Ptr(id)),
            final(self).spec_next_id() == old(self).spec_next_id(),
            old(self).wf() ==> final(self).wf(),
    {
        let ok = self.values.contains_key(&id);
        let mut work: Vec<Value> = Vec::new();
        work.push(Value::Ptr(id));
        assert(work@ =~= seq![Value::Ptr(id)]);
        self.release_values(work);
        ok
    }

    /// Gives up one reference to what `value` points to. A scalar is not
    /// counted and always succeeds; a pointer succeeds if its object exists.
    pub fn release(&mut self, value: &Value) -> (ok: bool)
        ensures
            ok == (*value matches Value::Ptr(id) ==> old(self)@.contains_key(id)),
            final(self)@ == released(old(self)@, *value),
            final(self).spec_next_id() == old(self).spec_next_id(),
            old(self).wf() ==> final(self).wf(),
    {
        match value {
            Value::Ptr(id) => self.release_id(*id),
            _ => {
                proof {
                    self.lemma_finite();
                    lemma_release_scalar(self@, *value);
                }
                true
            },
        }
    }
}

/// A value that is no pointer gives up nothing.
pub proof fn lemma_release_scalar(h: Map<Id, RefView>, v: Value)
    requires
        h.dom().finite(),
        !(v is Ptr),
    ensures
        released(h, v) == h,
{
    assert(seq![v].drop_last() =~= Seq::<Value>::empty());
    assert(release_all(h, seq![v]) == release_all(h, Seq::<Value>::empty()));
}

} // verus!

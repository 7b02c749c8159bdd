use vstd::prelude::*;

verus! {

/// A dynamically typed element of a nested array.
#[derive(Debug, PartialEq)]
pub enum Value {
    /// An integer.
    Int(i64),
    /// A double, held as its IEEE-754 bit pattern.
    Float(u64),
    /// A nested array.
    Array(Vec<Value>),
    /// Anything else, which numeric operations reject. The library knows it
    /// only by the key under which its owner can find it again.
    Other(u64),
}

/// The mathematical content of a [`Value`].
pub enum Node {
    /// An integer.
    Int(i64),
    /// A double, held as its IEEE-754 bit pattern.
    Float(u64),
    /// A nested array.
    Array(Seq<Node>),
    /// Anything else, by its key.
    Other(u64),
}

/// The content of a value, by recursion over nested arrays.
pub open spec fn node_of(value: Value) -> Node
    decreases value,
{
    match value {
        Value::Int(i) => Node::Int(i),
        Value::Float(bits) => Node::Float(bits),
        Value::Array(items) => Node::Array(
            Seq::new(
                items@.len(),
                |k: int|
                    if 0 <= k < items@.len() {
                        node_of(items@[k])
                    } else {
                        Node::Other(0)
                    },
            ),
        ),
        Value::Other(key) => Node::Other(key),
    }
}

impl DeepView for Value {
    type V = Node;

    open spec fn deep_view(&self) -> Node {
        node_of(*self)
    }
}

/// The content of an array value is the sequence of its items' contents.
pub proof fn lemma_array_view(items: Vec<Value>)
    ensures
        Value::Array(items).deep_view() == Node::Array(items.deep_view()),
{
    let whole = Value::Array(items).deep_view();
    assert(whole->Array_0.len() == items@.len());
    assert(whole->Array_0 =~= items.deep_view());
}

impl Clone for Value {
    fn clone(&self) -> (copy: Value)
        ensures
            copy.deep_view() == self.deep_view(),
        decreases self,
    {
        match self {
            Value::Int(i) => Value::Int(*i),
            Value::Float(bits) => Value::Float(*bits),
            Value::Array(items) => {
                let mut out: Vec<Value> = Vec::new();
                let mut k: usize = 0;
                while k < items.len()
                    invariant
                        decreases_to!(*self => *items),
                        k <= items.len(),
                        out.len() == k,
                        forall|j: int| 0 <= j < k ==> out@[j].deep_view() == items@[j].deep_view(),
                    decreases items.len() - k,
                {
                    out.push(items[k].clone());
                    k += 1;
                }
                proof {
                    assert(out.deep_view() =~= items.deep_view());
                    lemma_array_view(out);
                    lemma_array_view(*items);
                }
                Value::Array(out)
            },
            Value::Other(key) => Value::Other(*key),
        }
    }
}

} // verus!

//! Memory layers: named scopes a workspace can read from and write to.
use vstd::prelude::*;

use crate::text::{chars_eq, chars_of};

verus! {

/// How sensitive a layer's content is.
#[derive(Debug, Clone, Copy, PartialEq, Eq, Structural)]
pub enum LayerSensitivity {
    /// Owned by one user; never shared.
    Private,
    /// Shared with other users of the same scope.
    Shared,
}

/// A named memory layer backed by a scope (the user id used for storage).
#[derive(Debug)]
pub struct MemoryLayer {
    /// Layer name, unique within a configuration.
    pub name: String,
    /// Storage scope the layer reads and writes.
    pub scope: String,
    /// Whether writes to the layer are allowed.
    pub writable: bool,
    /// Sensitivity of the layer's content.
    pub sensitivity: LayerSensitivity,
}

/// The value of a [`MemoryLayer`].
pub struct LayerView {
    pub name: Seq<char>,
    pub scope: Seq<char>,
    pub writable: bool,
    pub sensitivity: LayerSensitivity,
}

impl View for MemoryLayer {
    type V = LayerView;

    open spec fn view(&self) -> LayerView {
        LayerView {
            name: self.name@,
            scope: self.scope@,
            writable: self.writable,
            sensitivity: self.sensitivity,
        }
    }
}

/// The values of a list of layers.
pub open spec fn layers_view(layers: Seq<MemoryLayer>) -> Seq<LayerView> {
    layers.map_values(|l: MemoryLayer| l@)
}

/// Index of the first layer named `name`.
#[verifier::opaque]
pub open spec fn find_layer_spec(layers: Seq<LayerView>, name: Seq<char>) -> Option<int> {
    if exists|i: int| 0 <= i < layers.len() && layers[i].name == name {
        Some(
            choose|i: int|
                0 <= i < layers.len() && layers[i].name == name && forall|j: int|
                    0 <= j < i ==> layers[j].name != name,
        )
    } else {
        None
    }
}

/// Index of the first private layer.
#[verifier::opaque]
pub open spec fn private_layer_spec(layers: Seq<LayerView>) -> Option<int> {
    if exists|i: int| 0 <= i < layers.len() && layers[i].sensitivity == LayerSensitivity::Private {
        Some(
            choose|i: int|
                0 <= i < layers.len() && layers[i].sensitivity == LayerSensitivity::Private
                    && forall|j: int|
                    0 <= j < i ==> layers[j].sensitivity != LayerSensitivity::Private,
        )
    } else {
        None
    }
}

impl Clone for MemoryLayer {
    fn clone(&self) -> (r: Self)
        ensures
            r@ == self@,
    {
        MemoryLayer {
            name: self.name.clone(),
            scope: self.scope.clone(),
            writable: self.writable,
            sensitivity: self.sensitivity,
        }
    }
}

impl MemoryLayer {
    /// The default layers of a user: one writable private layer named
    /// `private` whose scope is the user.
    pub fn default_for_user(user_id: &str) -> (v: Vec<MemoryLayer>)
        ensures
            v@.len() == 1,
            v@[0]@ == (LayerView {
                name: "private"@,
                scope: user_id@,
                writable: true,
                sensitivity: LayerSensitivity::Private,
            }),
    {
        let mut v: Vec<MemoryLayer> = Vec::new();
        v.push(
            MemoryLayer {
                name: String::from_str("private"),
                scope: String::from_str(user_id),
                writable: true,
                sensitivity: LayerSensitivity::Private,
            },
        );
        v
    }

    /// Position of the first layer named `name`.
    pub fn find(layers: &[MemoryLayer], name: &str) -> (r: Option<usize>)
        ensures
            match r {
                Some(i) => find_layer_spec(layers_view(layers@), name@) == Some(i as int) && i < layers@.len(),
                None => find_layer_spec(layers_view(layers@), name@) is None,
            },
    {
        proof {
            reveal(find_layer_spec);
        }
        let ghost lv = layers_view(layers@);
        let n = chars_of(name);
        let mut i: usize = 0;
        while i < layers.len()
            invariant
                lv == layers_view(layers@),
                n@ == name@,
                0 <= i <= layers@.len(),
                forall|j: int| 0 <= j < i ==> lv[j].name != name@,
            decreases layers.len() - i,
        {
            let ln = chars_of(layers[i].name.as_str());
            if chars_eq(ln.as_slice(), n.as_slice()) {
                assert(lv[i as int].name == name@);
                proof {
                    reveal(find_layer_spec);
                }
                return Some(i);
            }
            i = i + 1;
        }
        None
    }

    /// Position of the first private layer.
    pub fn private_layer(layers: &[MemoryLayer]) -> (r: Option<usize>)
        ensures
            match r {
                Some(i) => private_layer_spec(layers_view(layers@)) == Some(i as int) && i < layers@.len(),
                None => private_layer_spec(layers_view(layers@)) is None,
            },
    {
        proof {
            reveal(private_layer_spec);
        }
        let ghost lv = layers_view(layers@);
        let mut i: usize = 0;
        while i < layers.len()
            invariant
                lv == layers_view(layers@),
                0 <= i <= layers@.len(),
                forall|j: int| 0 <= j < i ==> lv[j].sensitivity != LayerSensitivity::Private,
            decreases layers.len() - i,
        {
            if layers[i].sensitivity == LayerSensitivity::Private {
                assert(lv[i as int].sensitivity == LayerSensitivity::Private);
                proof {
                    reveal(private_layer_spec);
                }
                return Some(i);
            }
            i = i + 1;
        }
        None
    }

    /// The scopes the layers read from: each layer's scope, first occurrence
    /// kept, in layer order.
    pub fn read_scopes(layers: &[MemoryLayer]) -> (v: Vec<String>)
        ensures
            v@.map_values(|s: String| s@) == dedup_scopes(
                layers_view(layers@).map_values(|l: LayerView| l.scope),
            ),
    {
        let ghost scopes = layers_view(layers@).map_values(|l: LayerView| l.scope);
        let mut v: Vec<String> = Vec::new();
        let mut i: usize = 0;
        assert(scopes.take(0) =~= Seq::<Seq<char>>::empty());
        while i < layers.len()
            invariant
                scopes == layers_view(layers@).map_values(|l: LayerView| l.scope),
                0 <= i <= layers@.len(),
                v@.map_values(|s: String| s@) == dedup_scopes(scopes.take(i as int)),
            decreases layers.len() - i,
        {
            let s = layers[i].scope.clone();
            assert(scopes.take(i + 1).drop_last() =~= scopes.take(i as int));
            assert(scopes.take(i + 1).last() == s@);
            let present = contains_string(&v, &s);
            if !present {
                let ghost before = v@;
                v.push(s);
                assert(v@.map_values(|x: String| x@) =~= before.map_values(|x: String| x@).push(
                    layers@[i as int].scope@,
                ));
            }
            i = i + 1;
        }
        assert(scopes.take(layers@.len() as int) =~= scopes);
        v
    }
}

/// A list with later repeats removed, order kept.
pub open spec fn dedup_scopes(s: Seq<Seq<char>>) -> Seq<Seq<char>>
    decreases s.len(),
{
    if s.len() == 0 {
        s
    } else {
        let prev = dedup_scopes(s.drop_last());
        if prev.contains(s.last()) {
            prev
        } else {
            prev.push(s.last())
        }
    }
}

/// Whether the list holds a string equal to `s`.
pub fn contains_string(v: &Vec<String>, s: &String) -> (r: bool)
    ensures
        r == v@.map_values(|x: String| x@).contains(s@),
{
    let ghost vv = v@.map_values(|x: String| x@);
    let mut i: usize = 0;
    while i < v.len()
        invariant
            vv == v@.map_values(|x: String| x@),
            0 <= i <= v@.len(),
            forall|j: int| 0 <= j < i ==> vv[j] != s@,
        decreases v.len() - i,
    {
        if v[i] == *s {
            assert(vv[i as int] == s@);
            return true;
        }
        i = i + 1;
    }
    false
}

} // verus!

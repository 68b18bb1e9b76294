use crate::error::RuntimeError;
use crate::variable::types::VariableType;
use crate::variable::values::{lemma_vec_view, variables_view, ValueView, VariableValue, VariableView};
use crate::variable::{Variable, VariableLocation};
use vstd::prelude::*;

verus! {

/// A layer of the stack: the values of the variables by their names.
#[derive(Debug)]
pub struct VariableMap {
    entries: Vec<(String, VariableValue)>,
}

/// The first place from `from` on at which an entry of the name `name`
/// stands.
pub open spec fn entry_place<V>(entries: Seq<(String, V)>, name: Seq<char>, from: nat) -> Option<
    nat,
>
    decreases entries.len() - from,
{
    if from >= entries.len() {
        None
    } else if entries[from as int].0@ == name {
        Some(from)
    } else {
        entry_place(entries, name, from + 1)
    }
}

/// The map that a list of entries stands for: of two entries of one name the
/// first counts.
pub open spec fn entries_view(entries: Seq<(String, VariableValue)>) -> Map<Seq<char>, ValueView> {
    Map::new(
        |k: Seq<char>| entry_place(entries, k, 0) is Some,
        |k: Seq<char>| entries[entry_place(entries, k, 0)->Some_0 as int].1@,
    )
}

impl View for VariableMap {
    type V = Map<Seq<char>, ValueView>;

    closed spec fn view(&self) -> Map<Seq<char>, ValueView> {
        entries_view(self.entries@)
    }
}

/// The place of an entry is a place of the list, the entry there has the
/// name, and no entry before it has.
pub proof fn lemma_entry_place<V>(entries: Seq<(String, V)>, name: Seq<char>, from: nat)
    ensures
        match entry_place(entries, name, from) {
            Some(i) => from <= i < entries.len() && entries[i as int].0@ == name && forall|k: int|
                from <= k < i ==> (#[trigger] entries[k]).0@ != name,
            None => forall|k: int| from <= k < entries.len() ==> (#[trigger] entries[k]).0@ != name,
        },
    decreases entries.len() - from,
{
    if from < entries.len() && entries[from as int].0@ != name {
        lemma_entry_place(entries, name, from + 1);
    }
}

impl VariableMap {
    pub fn new() -> (r: Self)
        ensures
            r@ == Map::<Seq<char>, ValueView>::empty(),
    {
        let r = Self { entries: Vec::new() };
        assert(r@ =~= Map::<Seq<char>, ValueView>::empty());
        r
    }

    /// The place of the entry of the name `name`.
    fn place(&self, name: &String) -> (r: Option<usize>)
        ensures
            match r {
                Some(i) => entry_place(self.entries@, name@, 0) == Some(i as nat) && i
                    < self.entries@.len(),
                None => entry_place(self.entries@, name@, 0) is None,
            },
    {
        let mut i: usize = 0;
        while i < self.entries.len()
            invariant
                i <= self.entries.len(),
                entry_place(self.entries@, name@, 0) == entry_place(
                    self.entries@,
                    name@,
                    i as nat,
                ),
            decreases self.entries.len() - i,
        {
            if self.entries[i].0 == *name {
                return Some(i);
            }
            i += 1;
        }
        None
    }

    /// The value of the variable `name`.
    pub fn get(&self, name: &str) -> (r: Option<&VariableValue>)
        ensures
            match r {
                Some(v) => self@.contains_key(name@) && v@ == self@[name@],
                None => !self@.contains_key(name@),
            },
    {
        let key = name.to_owned();
        match self.place(&key) {
            Some(i) => Some(&self.entries[i].1),
            None => None,
        }
    }

    pub fn contains_key(&self, name: &str) -> (r: bool)
        ensures
            r == self@.contains_key(name@),
    {
        let key = name.to_owned();
        self.place(&key).is_some()
    }

    /// Gives the variable `name` the value `value`, and returns the value
    /// that it had.
    pub fn insert(&mut self, name: String, value: VariableValue) -> (r: Option<VariableValue>)
        ensures
            final(self)@ == old(self)@.insert(name@, value@),
            match r {
                Some(v) => old(self)@.contains_key(name@) && v@ == old(self)@[name@],
                None => !old(self)@.contains_key(name@),
            },
    {
        let ghost before = self.entries@;
        match self.place(&name) {
            Some(i) => {
                let previous = self.entries[i].1.clone();
                proof {
                    lemma_entry_place(before, name@, 0);
                }
                self.entries[i] = (name, value);
                proof {
                    let after = self.entries@;
                    let goal = entries_view(before).insert(name@, value@);
                    assert forall|k: Seq<char>|
                        (#[trigger] entries_view(after).dom().contains(k)) == goal.dom().contains(k)
                            && (entries_view(after).dom().contains(k) ==> entries_view(after)[k]
                            == goal[k]) by {
                        assert forall|j: int| 0 <= j < after.len() implies (#[trigger] after[j]).0@
                            == before[j].0@ by {}
                        lemma_same_places(after, before, k, 0);
                        lemma_entry_place(before, k, 0);
                    }
                    assert(entries_view(after) =~= goal);
                }
                Some(previous)
            },
            None => {
                self.entries.push((name, value));
                proof {
                    let after = self.entries@;
                    let goal = entries_view(before).insert(name@, value@);
                    assert forall|k: Seq<char>|
                        (#[trigger] entries_view(after).dom().contains(k)) == goal.dom().contains(k)
                            && (entries_view(after).dom().contains(k) ==> entries_view(after)[k]
                            == goal[k]) by {
                        lemma_entry_place_push(before, (name, value), k, 0);
                        lemma_entry_place(before, k, 0);
                    }
                    assert(entries_view(after) =~= goal);
                }
                None
            },
        }
    }

    /// The names of the variables.
    pub fn keys(&self) -> (r: Vec<String>)
        ensures
            forall|k: int| 0 <= k < r@.len() ==> self@.contains_key(#[trigger] r@[k]@),
            forall|name: Seq<char>|
                self@.contains_key(name) ==> exists|k: int|
                    0 <= k < r@.len() && #[trigger] r@[k]@ == name,
    {
        let mut out: Vec<String> = Vec::new();
        let mut i: usize = 0;
        while i < self.entries.len()
            invariant
                i <= self.entries.len(),
                out@.len() == i,
                forall|k: int| 0 <= k < i ==> (#[trigger] out@[k])@ == self.entries@[k].0@,
            decreases self.entries.len() - i,
        {
            out.push(self.entries[i].0.clone());
            i += 1;
        }
        proof {
            assert forall|k: int| 0 <= k < out@.len() implies self@.contains_key(
                #[trigger] out@[k]@,
            ) by {
                lemma_entry_place(self.entries@, out@[k]@, 0);
            }
            assert forall|name: Seq<char>| self@.contains_key(name) implies exists|k: int|
                0 <= k < out@.len() && #[trigger] out@[k]@ == name by {
                lemma_entry_place(self.entries@, name, 0);
                let at = entry_place(self.entries@, name, 0)->Some_0 as int;
                assert(out@[at]@ == name);
            }
        }
        out
    }
}

impl Clone for VariableMap {
    fn clone(&self) -> (r: Self)
        ensures
            r@ == self@,
    {
        let mut entries: Vec<(String, VariableValue)> = Vec::new();
        let mut i: usize = 0;
        while i < self.entries.len()
            invariant
                i <= self.entries.len(),
                entries@.len() == i,
                forall|k: int|
                    0 <= k < i ==> (#[trigger] entries@[k]).0@ == self.entries@[k].0@
                        && entries@[k].1@ == self.entries@[k].1@,
            decreases self.entries.len() - i,
        {
            entries.push((self.entries[i].0.clone(), self.entries[i].1.clone()));
            i += 1;
        }
        let r = Self { entries };
        proof {
            let a = r.entries@;
            let b = self.entries@;
            assert forall|k: Seq<char>|
                (#[trigger] entries_view(a).dom().contains(k)) == entries_view(b).dom().contains(k)
                    && (entries_view(a).dom().contains(k) ==> entries_view(a)[k] == entries_view(
                    b,
                )[k]) by {
                lemma_same_places(a, b, k, 0);
                lemma_entry_place(b, k, 0);
                if entry_place(b, k, 0) is Some {
                    let at = entry_place(b, k, 0)->Some_0 as int;
                    assert(a[at].1@ == b[at].1@);
                }
            }
            assert(entries_view(a) =~= entries_view(b));
        }
        r
    }
}

/// An entry put behind the others is found where no entry before it has its
/// name, and changes the place of no other name.
pub proof fn lemma_entry_place_push<V>(
    entries: Seq<(String, V)>,
    e: (String, V),
    name: Seq<char>,
    from: nat,
)
    requires
        from <= entries.len(),
    ensures
        entry_place(entries.push(e), name, from) == (match entry_place(entries, name, from) {
            Some(i) => Some(i),
            None => if e.0@ == name {
                Some(entries.len())
            } else {
                None
            },
        }),
    decreases entries.len() - from,
{
    let after = entries.push(e);
    if from < entries.len() {
        assert(after[from as int] == entries[from as int]);
        if entries[from as int].0@ != name {
            lemma_entry_place_push(entries, e, name, from + 1);
        }
    } else {
        assert(after[from as int] == e);
        assert(entry_place(after, name, from + 1) is None);
    }
}

/// Two lists of entries with the same names have entries of a name at the
/// same place.
pub proof fn lemma_same_places<V>(
    a: Seq<(String, V)>,
    b: Seq<(String, V)>,
    name: Seq<char>,
    from: nat,
)
    requires
        a.len() == b.len(),
        forall|k: int| 0 <= k < a.len() ==> (#[trigger] a[k]).0@ == b[k].0@,
    ensures
        entry_place(a, name, from) == entry_place(b, name, from),
    decreases a.len() - from,
{
    if from < a.len() {
        assert(a[from as int].0@ == b[from as int].0@);
        lemma_same_places(a, b, name, from + 1);
    }
}

/// The layers of a stack as the contracts see them, the outermost first.
pub type Layers = Seq<Map<Seq<char>, ValueView>>;

/// The innermost of the first `n` layers that holds the variable `name`.
pub open spec fn holding_layer(layers: Layers, name: Seq<char>, n: nat) -> Option<nat>
    decreases n,
{
    if n == 0 {
        None
    } else if layers[n - 1].contains_key(name) {
        Some((n - 1) as nat)
    } else {
        holding_layer(layers, name, (n - 1) as nat)
    }
}

/// The innermost of the first `n` layers that holds a variable `name` whose
/// value is of the type `t`.
pub open spec fn typed_layer(layers: Layers, name: Seq<char>, t: VariableType, n: nat) -> Option<nat>
    decreases n,
{
    if n == 0 {
        None
    } else if layers[n - 1].contains_key(name) && layers[n - 1][name].type_of().loosely_equal(t) {
        Some((n - 1) as nat)
    } else {
        typed_layer(layers, name, t, (n - 1) as nat)
    }
}

/// The value of the variable `name`: that of the innermost layer that holds
/// it.
pub open spec fn lookup(layers: Layers, name: Seq<char>) -> Option<ValueView> {
    match holding_layer(layers, name, layers.len()) {
        Some(i) => Some(layers[i as int][name]),
        None => None,
    }
}

/// The value of the variable `name` of the type `t`: that of the innermost
/// layer that holds such a variable.
pub open spec fn lookup_typed(layers: Layers, name: Seq<char>, t: VariableType) -> Option<ValueView> {
    match typed_layer(layers, name, t, layers.len()) {
        Some(i) => Some(layers[i as int][name]),
        None => None,
    }
}

/// The layers after the variable `name` got the value `value` in the
/// innermost layer that holds it; without such a layer they stay as they
/// are.
pub open spec fn updated(layers: Layers, name: Seq<char>, value: ValueView) -> Layers {
    match holding_layer(layers, name, layers.len()) {
        Some(i) => layers.update(i as int, layers[i as int].insert(name, value)),
        None => layers,
    }
}

/// The layers after the element `index` of the collection `name` of the
/// type `t` got the value `value`: an element that names a variable of the
/// scope hands the value on to that variable; an element that carries its
/// value gets it in place.
pub open spec fn vec_updated(
    layers: Layers,
    name: Seq<char>,
    index: int,
    value: ValueView,
    t: VariableType,
) -> Result<Layers, RuntimeError> {
    match typed_layer(layers, name, t, layers.len()) {
        None => Err(RuntimeError::UnknownVariable),
        Some(i) => match layers[i as int][name] {
            ValueView::Vec(v) => {
                if !(0 <= index < v.len()) {
                    Err(RuntimeError::EmptyCollection)
                } else {
                    match v[index].location {
                        VariableLocation::Scope => {
                            if holding_layer(layers, v[index].name, layers.len()) is Some {
                                Ok(updated(layers, v[index].name, value))
                            } else {
                                Err(RuntimeError::UnknownVariable)
                            }
                        },
                        VariableLocation::Static => {
                            if v[index].val is Some {
                                Ok(
                                    layers.update(
                                        i as int,
                                        layers[i as int].insert(
                                            name,
                                            ValueView::Vec(
                                                v.update(
                                                    index,
                                                    VariableView {
                                                        name: v[index].name,
                                                        location: v[index].location,
                                                        val: Some(value),
                                                        typ: v[index].typ,
                                                    },
                                                ),
                                            ),
                                        ),
                                    ),
                                )
                            } else {
                                Err(RuntimeError::UnsetValue)
                            }
                        },
                        VariableLocation::Component => Err(RuntimeError::Unsupported),
                    }
                }
            },
            _ => Err(RuntimeError::TypeMismatch),
        },
    }
}

/// The scoped variable stack: layers of variables, the innermost last.
#[derive(Debug)]
pub struct Stack {
    pub layers: Vec<VariableMap>,
}

impl View for Stack {
    type V = Seq<Map<Seq<char>, ValueView>>;

    open spec fn view(&self) -> Seq<Map<Seq<char>, ValueView>> {
        self.layers@.map_values(|l: VariableMap| l@)
    }
}

impl Stack {
    /// The stack with one empty layer.
    pub fn new() -> (r: Self)
        ensures
            r@ == seq![Map::<Seq<char>, ValueView>::empty()],
    {
        let mut layers: Vec<VariableMap> = Vec::new();
        layers.push(VariableMap::new());
        let r = Self { layers };
        assert(r@ =~= seq![Map::<Seq<char>, ValueView>::empty()]);
        r
    }

    pub fn push_layer(&mut self)
        ensures
            final(self)@ == old(self)@.push(Map::empty()),
    {
        self.layers.push(VariableMap::new());
        assert(self@ =~= old(self)@.push(Map::empty()));
    }

    pub fn push_layer_with(&mut self, layer: VariableMap)
        ensures
            final(self)@ == old(self)@.push(layer@),
    {
        self.layers.push(layer);
        assert(self@ =~= old(self)@.push(layer@));
    }

    /// Takes the innermost layer off; there must be one.
    pub fn pop_layer(&mut self) -> (r: VariableMap)
        requires
            old(self)@.len() > 0,
        ensures
            r@ == old(self)@.last(),
            final(self)@ == old(self)@.drop_last(),
    {
        let r = self.layers.pop().unwrap();
        assert(self@ =~= old(self)@.drop_last());
        r
    }

    /// Adds a variable to the innermost layer; there must be a layer, and
    /// the layer must not hold a variable of that name yet.
    pub fn add_variable(&mut self, name: String, value: VariableValue)
        requires
            old(self)@.len() > 0,
            !old(self)@.last().contains_key(name@),
        ensures
            final(self)@ == old(self)@.update(
                old(self)@.len() - 1,
                old(self)@.last().insert(name@, value@),
            ),
    {
        let top_index = self.layers.len() - 1;
        let ghost before = self.layers@;
        self.layers[top_index].insert(name, value);
        assert(self.layers@.len() == before.len());
        assert forall|k: int| 0 <= k < before.len() && k != top_index implies self.layers@[k]
            == before[k] by {}
        assert(self@ =~= old(self)@.update(
            old(self)@.len() - 1,
            old(self)@.last().insert(name@, value@),
        ));
    }

    /// The index of the innermost layer that holds the variable `name`.
    pub fn layer_of(&self, name: &str) -> (r: Option<usize>)
        ensures
            match r {
                Some(i) => holding_layer(self@, name@, self@.len()) == Some(i as nat) && i
                    < self@.len() && self@[i as int].contains_key(name@),
                None => holding_layer(self@, name@, self@.len()) is None,
            },
    {
        let mut n: usize = self.layers.len();
        while n > 0
            invariant
                n <= self.layers.len(),
                holding_layer(self@, name@, self@.len()) == holding_layer(self@, name@, n as nat),
            decreases n,
        {
            if self.layers[n - 1].contains_key(name) {
                return Some(n - 1);
            }
            n -= 1;
        }
        None
    }

    /// The index of the innermost layer that holds a variable `name` whose
    /// value is of the type `var_type`.
    pub fn typed_layer_of(&self, name: &str, var_type: &VariableType) -> (r: Option<usize>)
        ensures
            match r {
                Some(i) => typed_layer(self@, name@, *var_type, self@.len()) == Some(i as nat)
                    && i < self@.len() && self@[i as int].contains_key(name@),
                None => typed_layer(self@, name@, *var_type, self@.len()) is None,
            },
    {
        let mut n: usize = self.layers.len();
        while n > 0
            invariant
                n <= self.layers.len(),
                typed_layer(self@, name@, *var_type, self@.len()) == typed_layer(
                    self@,
                    name@,
                    *var_type,
                    n as nat,
                ),
            decreases n,
        {
            match self.layers[n - 1].get(name) {
                Some(v) => {
                    if v.get_type().loosely_matches(var_type) {
                        return Some(n - 1);
                    }
                },
                None => {},
            }
            n -= 1;
        }
        None
    }

    /// Gives the variable `name` a new value in the innermost layer that
    /// holds it; without such a layer nothing happens.
    pub fn update_variable(&mut self, name: &str, new_value: VariableValue)
        ensures
            final(self)@ == updated(old(self)@, name@, new_value@),
    {
        match self.layer_of(name) {
            Some(layer_idx) => {
                self.set_in_layer(layer_idx, name, new_value);
            },
            None => {},
        }
    }

    /// Gives the variable `name` the value `value` in the layer `layer`.
    fn set_in_layer(&mut self, layer: usize, name: &str, value: VariableValue)
        requires
            layer < old(self)@.len(),
        ensures
            final(self)@ == old(self)@.update(
                layer as int,
                old(self)@[layer as int].insert(name@, value@),
            ),
    {
        let ghost before = self.layers@;
        self.layers[layer].insert(name.to_owned(), value);
        assert(self.layers@.len() == before.len());
        assert forall|k: int| 0 <= k < before.len() && k != layer implies self.layers@[k]
            == before[k] by {}
        assert(self@ =~= old(self)@.update(
            layer as int,
            old(self)@[layer as int].insert(name@, value@),
        ));
    }

    /// Gives the element `index` of the collection `name` of the type
    /// `var_type` a new value; see `vec_updated`. After an error the stack
    /// is as it was.
    pub fn update_vec_at(
        &mut self,
        name: &str,
        index: usize,
        new_value: VariableValue,
        var_type: &VariableType,
    ) -> (r: Result<(), RuntimeError>)
        ensures
            match vec_updated(old(self)@, name@, index as int, new_value@, *var_type) {
                Ok(layers) => r is Ok && final(self)@ == layers,
                Err(e) => r == Err::<(), RuntimeError>(e) && final(self)@ == old(self)@,
            },
    {
        let layer = match self.typed_layer_of(name, var_type) {
            Some(layer) => layer,
            None => {
                return Err(RuntimeError::UnknownVariable);
            },
        };
        let val = match self.layers[layer].get(name) {
            Some(val) => val,
            None => {
                return Err(RuntimeError::UnknownVariable);
            },
        };
        let v = match val {
            VariableValue::Vec(v) => v,
            _ => {
                return Err(RuntimeError::TypeMismatch);
            },
        };
        proof {
            lemma_vec_view(*v);
        }
        if index >= v.len() {
            return Err(RuntimeError::EmptyCollection);
        }
        let vec_at = &v[index];
        assert(vec_at@ == variables_view(v@)[index as int]);
        match vec_at.location {
            VariableLocation::Scope => {
                let name_at = vec_at.get_name();
                if self.layer_of(name_at.as_str()).is_none() {
                    return Err(RuntimeError::UnknownVariable);
                }
                self.update_variable(name_at.as_str(), new_value);
                Ok(())
            },
            VariableLocation::Static => {
                if vec_at.val.is_none() {
                    return Err(RuntimeError::UnsetValue);
                }
                let mut elements: Vec<Variable> = Vec::new();
                let mut k: usize = 0;
                let ghost target = variables_view(v@).update(
                    index as int,
                    VariableView {
                        name: vec_at@.name,
                        location: vec_at@.location,
                        val: Some(new_value@),
                        typ: vec_at@.typ,
                    },
                );
                let mut pending = Some(new_value);
                while k < v.len()
                    invariant
                        k <= v.len(),
                        index < v.len(),
                        elements@.len() == k,
                        vec_at@ == variables_view(v@)[index as int],
                        k <= index ==> pending is Some && pending->Some_0@ == new_value@,
                        target == variables_view(v@).update(
                            index as int,
                            VariableView {
                                name: vec_at@.name,
                                location: vec_at@.location,
                                val: Some(new_value@),
                                typ: vec_at@.typ,
                            },
                        ),
                        forall|j: int| 0 <= j < k ==> (#[trigger] elements@[j])@ == target[j],
                    decreases v.len() - k,
                {
                    if k == index {
                        let value = pending.take();
                        elements.push(
                            Variable {
                                name: v[k].name.clone(),
                                location: v[k].location,
                                val: value,
                                typ: v[k].typ.clone(),
                            },
                        );
                    } else {
                        elements.push(v[k].clone());
                    }
                    k += 1;
                }
                proof {
                    lemma_vec_view(elements);
                    assert(variables_view(elements@) =~= target);
                }
                self.set_in_layer(layer, name, VariableValue::Vec(elements));
                Ok(())
            },
            VariableLocation::Component => Err(RuntimeError::Unsupported),
        }
    }

    /// The value of the variable `name`.
    pub fn get_variable(&self, name: &str) -> (r: Option<&VariableValue>)
        ensures
            match r {
                Some(v) => lookup(self@, name@) == Some(v@),
                None => lookup(self@, name@) is None,
            },
    {
        match self.layer_of(name) {
            Some(layer) => self.layers[layer].get(name),
            None => None,
        }
    }

    /// The value of the variable `name` of the type `var_type`.
    pub fn get_variable_of_type(&self, name: &str, var_type: &VariableType) -> (r: Option<
        &VariableValue,
    >)
        ensures
            match r {
                Some(v) => lookup_typed(self@, name@, *var_type) == Some(v@),
                None => lookup_typed(self@, name@, *var_type) is None,
            },
    {
        match self.typed_layer_of(name, var_type) {
            Some(layer) => self.layers[layer].get(name),
            None => None,
        }
    }
}

impl Clone for Stack {
    fn clone(&self) -> (r: Self)
        ensures
            r@ == self@,
    {
        let mut layers: Vec<VariableMap> = Vec::new();
        let mut i: usize = 0;
        while i < self.layers.len()
            invariant
                i <= self.layers.len(),
                layers@.len() == i,
                forall|k: int| 0 <= k < i ==> (#[trigger] layers@[k])@ == self.layers@[k]@,
            decreases self.layers.len() - i,
        {
            layers.push(self.layers[i].clone());
            i += 1;
        }
        let r = Self { layers };
        assert(r@ =~= self@);
        r
    }
}

} // verus!

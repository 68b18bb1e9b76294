use crate::context::Context;
use crate::error::RuntimeError;
use crate::variable::stack::{lookup, lookup_typed, updated, Layers, Stack};
use crate::variable::types::VariableType;
use crate::variable::values::{ValueView, VariableValue, VariableView};
use vstd::prelude::*;

verus! {

/// Where the value of a variable is found.
#[derive(Copy, Clone, Debug, PartialEq, Eq, Structural)]
pub enum VariableLocation {
    /// Looked up by name in the stack at every access.
    Scope,
    /// Carried by the variable itself.
    Static,
    /// A field of a component.
    Component,
}

/// A handle to a value.
#[derive(Debug)]
pub struct Variable {
    pub name: String,
    pub location: VariableLocation,
    pub val: Option<VariableValue>,
    pub typ: VariableType,
}

/// What a name that is not in the scope stands for: `$width` and `$height`
/// are the size of the frame, cut to 32 bits; any other name is unknown.
pub open spec fn frame_size(name: Seq<char>, width: usize, height: usize) -> Result<
    ValueView,
    RuntimeError,
> {
    if name == "$width"@ {
        Ok(ValueView::Int(width as i32))
    } else if name == "$height"@ {
        Ok(ValueView::Int(height as i32))
    } else {
        Err(RuntimeError::UnknownVariable)
    }
}

impl VariableView {
    /// The value of the variable: the one it carries, or the one that its
    /// name has in the innermost layer that holds the name.
    pub open spec fn value(self, width: usize, height: usize, layers: Layers) -> Result<
        ValueView,
        RuntimeError,
    > {
        match self.location {
            VariableLocation::Scope => match lookup(layers, self.name) {
                Some(v) => Ok(v),
                None => frame_size(self.name, width, height),
            },
            _ => match self.val {
                Some(v) => Ok(v),
                None => Err(RuntimeError::UnsetValue),
            },
        }
    }

    /// The value of the variable where a value of the type `t` is asked for:
    /// a carried value must be of that type, and a name is looked up in the
    /// innermost layer in which it has a value of that type.
    pub open spec fn typed_value(
        self,
        t: VariableType,
        width: usize,
        height: usize,
        layers: Layers,
    ) -> Result<ValueView, RuntimeError> {
        match self.location {
            VariableLocation::Scope => match lookup_typed(layers, self.name, t) {
                Some(v) => Ok(v),
                None => frame_size(self.name, width, height),
            },
            VariableLocation::Static => match self.val {
                Some(v) => if v.type_of().loosely_equal(t) {
                    Ok(v)
                } else {
                    Err(RuntimeError::TypeMismatch)
                },
                None => Err(RuntimeError::UnsetValue),
            },
            VariableLocation::Component => match self.val {
                Some(v) => Ok(v),
                None => Err(RuntimeError::UnsetValue),
            },
        }
    }

    /// The value that the variable has without regard to the frame.
    pub open spec fn stored_value(self, layers: Layers) -> Result<ValueView, RuntimeError> {
        match self.location {
            VariableLocation::Scope => match lookup(layers, self.name) {
                Some(v) => Ok(v),
                None => Err(RuntimeError::UnknownVariable),
            },
            _ => match self.val {
                Some(v) => Ok(v),
                None => Err(RuntimeError::UnsetValue),
            },
        }
    }

    /// The layers after the variable got the value `new_val`, which must be
    /// of the kind of the value that it had: a name gets the value in the
    /// innermost layer that holds the name. A variable that carries its
    /// value is a literal and cannot get another, nor can a component.
    pub open spec fn assigned(self, layers: Layers, new_val: ValueView) -> Result<
        Layers,
        RuntimeError,
    > {
        match self.location {
            VariableLocation::Static => Err(RuntimeError::StaticMutation),
            VariableLocation::Scope => match lookup(layers, self.name) {
                Some(v) => if v.same_kind(new_val) {
                    Ok(updated(layers, self.name, new_val))
                } else {
                    Err(RuntimeError::TypeMismatch)
                },
                None => Err(RuntimeError::UnknownVariable),
            },
            VariableLocation::Component => Err(RuntimeError::Unsupported),
        }
    }
}

/// `$width` and `$height` as values.
fn frame_size_value(name: &String, context: &Context) -> (r: Result<VariableValue, RuntimeError>)
    ensures
        match frame_size(name@, context@.width, context@.height) {
            Ok(v) => r is Ok && r->Ok_0@ == v,
            Err(e) => r is Err && r->Err_0 == e,
        },
{
    if *name == "$width".to_owned() {
        return Ok(VariableValue::Int(#[verifier::truncate] (context.get_width() as i32)));
    }
    if *name == "$height".to_owned() {
        return Ok(VariableValue::Int(#[verifier::truncate] (context.get_height() as i32)));
    }
    Err(RuntimeError::UnknownVariable)
}

impl Variable {
    /// The value of the variable; see `VariableView::value`.
    pub fn get_value(&self, context: &Context, scope: &Stack) -> (r: Result<
        VariableValue,
        RuntimeError,
    >)
        ensures
            match self@.value(context@.width, context@.height, scope@) {
                Ok(v) => r is Ok && r->Ok_0@ == v,
                Err(e) => r is Err && r->Err_0 == e,
            },
    {
        match self.location {
            VariableLocation::Scope => {
                match scope.get_variable(self.name.as_str()) {
                    Some(v) => Ok(v.clone()),
                    None => frame_size_value(&self.name, context),
                }
            },
            _ => {
                match &self.val {
                    Some(v) => Ok(v.clone()),
                    None => Err(RuntimeError::UnsetValue),
                }
            },
        }
    }

    /// The value of the variable as a value of the type `var_type`; see
    /// `VariableView::typed_value`.
    pub fn get_value_of_type(&self, context: &Context, scope: &Stack, var_type: &VariableType) -> (r:
        Result<VariableValue, RuntimeError>)
        ensures
            match self@.typed_value(*var_type, context@.width, context@.height, scope@) {
                Ok(v) => r is Ok && r->Ok_0@ == v,
                Err(e) => r is Err && r->Err_0 == e,
            },
    {
        match self.location {
            VariableLocation::Static => {
                match &self.val {
                    Some(v) => {
                        if v.get_type().loosely_matches(var_type) {
                            Ok(v.clone())
                        } else {
                            Err(RuntimeError::TypeMismatch)
                        }
                    },
                    None => Err(RuntimeError::UnsetValue),
                }
            },
            VariableLocation::Scope => {
                match scope.get_variable_of_type(self.name.as_str(), var_type) {
                    Some(v) => Ok(v.clone()),
                    None => frame_size_value(&self.name, context),
                }
            },
            VariableLocation::Component => {
                match &self.val {
                    Some(v) => Ok(v.clone()),
                    None => Err(RuntimeError::UnsetValue),
                }
            },
        }
    }

    /// The value that the variable has in itself or in the scope; see
    /// `VariableView::stored_value`.
    pub fn get_value_ref<'a>(&'a self, _context: &'a Context, scope: &'a Stack) -> (r: Result<
        &'a VariableValue,
        RuntimeError,
    >)
        ensures
            match self@.stored_value(scope@) {
                Ok(v) => r is Ok && r->Ok_0@ == v,
                Err(e) => r is Err && r->Err_0 == e,
            },
    {
        match self.location {
            VariableLocation::Scope => {
                match scope.get_variable(self.name.as_str()) {
                    Some(v) => Ok(v),
                    None => Err(RuntimeError::UnknownVariable),
                }
            },
            _ => {
                match &self.val {
                    Some(v) => Ok(v),
                    None => Err(RuntimeError::UnsetValue),
                }
            },
        }
    }

    /// Gives the variable a new value; see `VariableView::assigned`. After
    /// an error the scope is as it was.
    pub fn set_value(&self, _context: &Context, scope: &mut Stack, new_val: VariableValue) -> (r:
        Result<(), RuntimeError>)
        ensures
            match self@.assigned(old(scope)@, new_val@) {
                Ok(layers) => r is Ok && final(scope)@ == layers,
                Err(e) => r == Err::<(), RuntimeError>(e) && final(scope)@ == old(scope)@,
            },
    {
        match self.location {
            VariableLocation::Static => Err(RuntimeError::StaticMutation),
            VariableLocation::Scope => {
                let same = match scope.get_variable(self.name.as_str()) {
                    Some(val) => val.type_check(&new_val),
                    None => {
                        return Err(RuntimeError::UnknownVariable);
                    },
                };
                if !same {
                    return Err(RuntimeError::TypeMismatch);
                }
                scope.update_variable(self.name.as_str(), new_val);
                Ok(())
            },
            VariableLocation::Component => Err(RuntimeError::Unsupported),
        }
    }

    /// A variable of the scope with the given name and declared type.
    pub fn new(name: &str, typ: VariableType) -> (r: Self)
        ensures
            r@ == (VariableView {
                name: name@,
                location: VariableLocation::Scope,
                val: None,
                typ,
            }),
    {
        Self { name: name.to_owned(), location: VariableLocation::Scope, val: None, typ }
    }

    /// A variable that carries its value.
    pub fn new_static(val: VariableValue) -> (r: Self)
        ensures
            r@ == (VariableView {
                name: Seq::empty(),
                location: VariableLocation::Static,
                val: Some(val@),
                typ: val@.type_of(),
            }),
    {
        let typ = val.get_type();
        Self { name: String::new(), location: VariableLocation::Static, val: Some(val), typ }
    }

    /// A variable that stands for a component of the given type.
    pub fn new_component(name: &str, component_type: usize) -> (r: Self)
        ensures
            r@ == (VariableView {
                name: name@,
                location: VariableLocation::Component,
                val: None,
                typ: VariableType::Component(component_type),
            }),
    {
        Self {
            name: name.to_owned(),
            location: VariableLocation::Component,
            val: None,
            typ: VariableType::Component(component_type),
        }
    }

    pub fn is_static(&self) -> (r: bool)
        ensures
            r == (self@.location == VariableLocation::Static),
    {
        self.location == VariableLocation::Static
    }

    pub fn get_name(&self) -> (r: String)
        ensures
            r@ == self@.name,
    {
        self.name.clone()
    }

    pub fn get_location(&self) -> (r: VariableLocation)
        ensures
            r == self@.location,
    {
        self.location
    }

    pub fn get_type(&self) -> (r: &VariableType)
        ensures
            *r == self@.typ,
    {
        &self.typ
    }
}

impl Clone for Variable {
    fn clone(&self) -> (r: Self)
        ensures
            r@ == self@,
        decreases *self,
    {
        Self {
            name: self.name.clone(),
            location: self.location,
            val: match &self.val {
                Some(x) => Some(x.clone()),
                None => None,
            },
            typ: self.typ.clone(),
        }
    }
}

impl PartialEq for Variable {
    fn eq(&self, other: &Self) -> (r: bool) {
        crate::variable::values::same_variable(self, other)
    }
}

impl vstd::std_specs::cmp::PartialEqSpecImpl for Variable {
    open spec fn obeys_eq_spec() -> bool {
        true
    }

    open spec fn eq_spec(&self, other: &Self) -> bool {
        self@ == other@
    }
}

} // verus!

//! The types of Speak values and their names.
use crate::i18n::Catalog;
use crate::text::join;
use vstd::prelude::*;

verus! {

/// The type of a Speak value.
#[derive(Debug)]
pub enum Type {
    /// Floating point number.
    Number,
    /// Boolean type.
    Bool,
    /// String type.
    String,
    /// Object type, by the object's name.
    Object(String),
    /// Array type, by the type of its elements.
    Array(Box<Type>),
    /// Function type.
    Function,
    /// Empty type.
    Empty,
}

/// The mathematical model of a [`Type`].
pub enum TypeM {
    Number,
    Bool,
    Str,
    Object(Seq<char>),
    Array(Box<TypeM>),
    Function,
    Empty,
}

/// The model of a type.
pub open spec fn type_model(t: Type) -> TypeM
    decreases t,
{
    match t {
        Type::Number => TypeM::Number,
        Type::Bool => TypeM::Bool,
        Type::String => TypeM::Str,
        Type::Object(o) => TypeM::Object(o@),
        Type::Array(e) => TypeM::Array(Box::new(type_model(*e))),
        Type::Function => TypeM::Function,
        Type::Empty => TypeM::Empty,
    }
}

impl View for Type {
    type V = TypeM;

    open spec fn view(&self) -> TypeM {
        type_model(*self)
    }
}

/// The name of a type, with the base names taken from the catalog.
pub open spec fn type_text(cat: Catalog, t: TypeM) -> Seq<char>
    decreases t,
{
    match t {
        TypeM::Number => cat.text("types.number"@),
        TypeM::Bool => cat.text("types.bool"@),
        TypeM::Str => cat.text("types.string"@),
        TypeM::Object(o) => cat.text("types.object"@) + ": "@ + o,
        TypeM::Array(e) => "[]"@ + type_text(cat, *e),
        TypeM::Function => cat.text("types.function"@),
        TypeM::Empty => "()"@,
    }
}

/// The type that a type name stands for: one of the base names of the
/// catalog, `()`, or else the name of an object type.
pub open spec fn type_of_name(cat: Catalog, name: Seq<char>) -> TypeM {
    if name == cat.text("types.number"@) {
        TypeM::Number
    } else if name == cat.text("types.bool"@) {
        TypeM::Bool
    } else if name == cat.text("types.string"@) {
        TypeM::Str
    } else if name == cat.text("types.function"@) {
        TypeM::Function
    } else if name == "()"@ {
        TypeM::Empty
    } else {
        TypeM::Object(name)
    }
}

impl Clone for Type {
    fn clone(&self) -> (r: Type)
        ensures
            r@ == self@,
        decreases self,
    {
        match self {
            Type::Number => Type::Number,
            Type::Bool => Type::Bool,
            Type::String => Type::String,
            Type::Object(o) => Type::Object(o.clone()),
            Type::Array(e) => {
                let inner: Type = (**e).clone();
                Type::Array(Box::new(inner))
            },
            Type::Function => Type::Function,
            Type::Empty => Type::Empty,
        }
    }
}

impl Type {
    /// Whether two types are the same.
    pub fn same(&self, other: &Type) -> (r: bool)
        ensures
            r == (self@ == other@),
        decreases self,
    {
        proof {
            reveal_with_fuel(type_model, 2);
        }
        match self {
            Type::Number => match other {
                Type::Number => true,
                _ => false,
            },
            Type::Bool => match other {
                Type::Bool => true,
                _ => false,
            },
            Type::String => match other {
                Type::String => true,
                _ => false,
            },
            Type::Object(a) => match other {
                Type::Object(b) => *a == *b,
                _ => false,
            },
            Type::Array(a) => match other {
                Type::Array(b) => {
                    let r = (**a).same(&**b);
                    assert(r == (type_model(**a) == type_model(**b)));
                    r
                },
                _ => false,
            },
            Type::Function => match other {
                Type::Function => true,
                _ => false,
            },
            Type::Empty => match other {
                Type::Empty => true,
                _ => false,
            },
        }
    }

    /// The name of the type.
    pub fn string(&self, cat: &Catalog) -> (s: String)
        ensures
            s@ == type_text(*cat, self@),
        decreases self,
    {
        match self {
            Type::Number => cat.tr("types.number"),
            Type::Bool => cat.tr("types.bool"),
            Type::String => cat.tr("types.string"),
            Type::Object(obj) => {
                let head = cat.tr("types.object");
                let with_sep = join(head.as_str(), ": ");
                join(with_sep.as_str(), obj.as_str())
            },
            Type::Array(t) => {
                let inner = (**t).string(cat);
                join("[]", inner.as_str())
            },
            Type::Function => cat.tr("types.function"),
            Type::Empty => "()".to_owned(),
        }
    }

    /// The type that `name_text` stands for; a name that is not a base type
    /// names an object type.
    pub fn to_type(name_text: &str, cat: &Catalog) -> (t: Type)
        ensures
            t@ == type_of_name(*cat, name_text@),
    {
        let name = name_text.to_owned();
        if name == cat.tr("types.number") {
            Type::Number
        } else if name == cat.tr("types.bool") {
            Type::Bool
        } else if name == cat.tr("types.string") {
            Type::String
        } else if name == cat.tr("types.function") {
            Type::Function
        } else if name == "()".to_owned() {
            Type::Empty
        } else {
            Type::Object(name)
        }
    }
}


impl PartialEq for Type {
    fn eq(&self, other: &Type) -> (r: bool) {
        self.same(other)
    }
}

impl vstd::std_specs::cmp::PartialEqSpecImpl for Type {
    open spec fn obeys_eq_spec() -> bool {
        true
    }

    open spec fn eq_spec(&self, other: &Type) -> bool {
        self@ == other@
    }
}

impl Eq for Type {
}

} // verus!

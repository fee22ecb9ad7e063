//! What the parser builds from the tokens of a definition, and the
//! mathematical view of each of these values.
use vstd::prelude::*;

verus! {

/// The characters of each string of a sequence.
pub open spec fn strings_view(v: Seq<String>) -> Seq<Seq<char>> {
    v.map_values(|s: String| s@)
}

pub proof fn lemma_strings_view_push(v: Seq<String>, s: String)
    ensures
        strings_view(v.push(s)) == strings_view(v).push(s@),
{
    assert(strings_view(v.push(s)) =~= strings_view(v).push(s@));
}

/// A type, kept as the texts of the tokens that spell it.
#[derive(Debug, PartialEq, Eq)]
pub struct Asn1Type {
    pub tokens: Vec<String>,
}

impl View for Asn1Type {
    type V = Seq<Seq<char>>;

    open spec fn view(&self) -> Seq<Seq<char>> {
        strings_view(self.tokens@)
    }
}

/// An information object class: the texts of the tokens of its field list,
/// and of its `WITH SYNTAX` list where it has one.
#[derive(Debug, PartialEq, Eq)]
pub struct Asn1ObjectClass {
    pub fields: Vec<String>,
    pub syntax: Option<Vec<String>>,
}

pub struct ObjectClassView {
    pub fields: Seq<Seq<char>>,
    pub syntax: Option<Seq<Seq<char>>>,
}

impl View for Asn1ObjectClass {
    type V = ObjectClassView;

    open spec fn view(&self) -> ObjectClassView {
        ObjectClassView {
            fields: strings_view(self.fields@),
            syntax: match self.syntax {
                Some(s) => Some(strings_view(s@)),
                None => None,
            },
        }
    }
}

/// An information object set: its class and the texts of its objects.
#[derive(Debug, PartialEq, Eq)]
pub struct Asn1ObjectSet {
    pub class: String,
    pub objects: Vec<String>,
}

/// `id Type ::= value`
#[derive(Debug, PartialEq, Eq)]
pub struct Asn1ValueAssignment {
    pub id: String,
    pub typeref: Asn1Type,
    pub value: String,
}

/// `Id ::= Type`
#[derive(Debug, PartialEq, Eq)]
pub struct Asn1TypeAssignment {
    pub id: String,
    pub typeref: Asn1Type,
}

/// `ID ::= CLASS { ... }`
#[derive(Debug, PartialEq, Eq)]
pub struct Asn1ObjectClassAssignment {
    pub id: String,
    pub classref: Asn1ObjectClass,
}

/// `Id CLASS-REF ::= { ... }`
#[derive(Debug, PartialEq, Eq)]
pub struct Asn1ObjectSetAssignment {
    pub id: String,
    pub set: Asn1ObjectSet,
}

#[derive(Debug, PartialEq, Eq)]
pub enum Asn1AssignmentKind {
    Value(Asn1ValueAssignment),
    Type(Asn1TypeAssignment),
    Class(Asn1ObjectClassAssignment),
    ObjectSet(Asn1ObjectSetAssignment),
}

/// Whether the governor of a parameter is a type or a class.
#[derive(Clone, Copy, Debug, PartialEq, Eq, Structural)]
pub enum GovernerKind {
    Type,
    Class,
}

#[derive(Debug, PartialEq, Eq)]
pub struct ParamGoverner {
    pub name: String,
    pub kind: GovernerKind,
}

/// What a dummy reference of a parameter stands for.
#[derive(Clone, Copy, Debug, PartialEq, Eq, Structural)]
pub enum DummyReferenceKind {
    Value,
    ValueSet,
    Object,
    ObjectSet,
    Type,
    Class,
}

#[derive(Debug, PartialEq, Eq)]
pub struct ParamDummyReference {
    pub name: String,
    pub kind: DummyReferenceKind,
}

/// One formal parameter of a parameterized definition.
#[derive(Debug, PartialEq, Eq)]
pub struct DefinitionParam {
    pub governer: Option<ParamGoverner>,
    pub dummyref: ParamDummyReference,
}

/// One definition of a module, with its formal parameters where it has any.
#[derive(Debug, PartialEq, Eq)]
pub struct Asn1Definition {
    pub kind: Asn1AssignmentKind,
    pub params: Option<Vec<DefinitionParam>>,
}

pub enum AssignmentView {
    Value { id: Seq<char>, typeref: Seq<Seq<char>>, value: Seq<char> },
    Type { id: Seq<char>, typeref: Seq<Seq<char>> },
    Class { id: Seq<char>, classref: ObjectClassView },
    ObjectSet { id: Seq<char>, class: Seq<char>, objects: Seq<Seq<char>> },
}

pub struct DefinitionView {
    pub kind: AssignmentView,
    pub params: Option<Seq<DefinitionParam>>,
}

impl View for Asn1AssignmentKind {
    type V = AssignmentView;

    open spec fn view(&self) -> AssignmentView {
        match self {
            Asn1AssignmentKind::Value(a) => AssignmentView::Value {
                id: a.id@,
                typeref: a.typeref@,
                value: a.value@,
            },
            Asn1AssignmentKind::Type(a) => AssignmentView::Type { id: a.id@, typeref: a.typeref@ },
            Asn1AssignmentKind::Class(a) => AssignmentView::Class {
                id: a.id@,
                classref: a.classref@,
            },
            Asn1AssignmentKind::ObjectSet(a) => AssignmentView::ObjectSet {
                id: a.id@,
                class: a.set.class@,
                objects: strings_view(a.set.objects@),
            },
        }
    }
}

impl View for Asn1Definition {
    type V = DefinitionView;

    open spec fn view(&self) -> DefinitionView {
        DefinitionView {
            kind: self.kind@,
            params: match self.params {
                Some(p) => Some(p@),
                None => None,
            },
        }
    }
}

} // verus!

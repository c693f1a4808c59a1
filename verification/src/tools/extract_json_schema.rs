//! The schema that a JSON value suggests.

use vstd::prelude::*;

use crate::json::Json;
use crate::text::{str_eq, views};
use crate::tools::find_json_paths::{type_of, value_type};
use crate::tools::fuzzy_find::holds;

verus! {

/// The type that a schema names: one, or two that were met.
pub enum TypeName {
    One(&'static str),
    Pair(Box<TypeName>, Box<TypeName>),
}

/// The type that a schema names.
pub enum Kind {
    One(Seq<char>),
    Pair(Box<Kind>, Box<Kind>),
}

/// A schema: nothing is said, or a type is named; of a list, what its items are;
/// of an object, what its properties are and which of them must be there.
pub enum Schema {
    Any,
    Typed(TypeName),
    Array(Box<Schema>),
    Object { properties: Vec<Property>, required: Vec<String> },
}

/// A property of an object.
pub struct Property {
    pub name: String,
    pub schema: Schema,
}

/// A schema.
pub enum Shape {
    Any,
    Typed(Kind),
    Array(Box<Shape>),
    Object { properties: Seq<Prop>, required: Seq<Seq<char>> },
}

/// A property of an object.
pub struct Prop {
    pub name: Seq<char>,
    pub shape: Shape,
}

/// The type that a schema names.
pub open spec fn kind_view(t: TypeName) -> Kind
    decreases t,
{
    match t {
        TypeName::One(s) => Kind::One(s@),
        TypeName::Pair(a, b) => Kind::Pair(Box::new(kind_view(*a)), Box::new(kind_view(*b))),
    }
}

/// The schema by its texts.
pub open spec fn shape_view(s: Schema) -> Shape
    decreases s, 1int, 0int,
{
    match s {
        Schema::Any => Shape::Any,
        Schema::Typed(t) => Shape::Typed(kind_view(t)),
        Schema::Array(items) => Shape::Array(Box::new(shape_view(*items))),
        Schema::Object { properties, required } => Shape::Object {
            properties: prop_views(s, properties@.len() as int),
            required: views(required@),
        },
    }
}

/// The first `n` properties of an object's schema by their texts.
pub open spec fn prop_views(s: Schema, n: int) -> Seq<Prop>
    decreases s, 0int, n,
{
    match s {
        Schema::Object { properties, required } => if 0 < n <= properties@.len() {
            prop_views(s, n - 1).push(
                Prop {
                    name: properties@[n - 1].name@,
                    shape: shape_view(properties@[n - 1].schema),
                },
            )
        } else {
            Seq::empty()
        },
        _ => Seq::empty(),
    }
}

/// There are as many properties by their texts, each that of the one there.
proof fn lemma_prop_views(s: Schema, n: int)
    requires
        s is Object,
        0 <= n <= s->properties@.len(),
    ensures
        prop_views(s, n).len() == n,
        forall|i: int|
            0 <= i < n ==> (#[trigger] prop_views(s, n)[i]).name == s->properties@[i].name@
                && prop_views(s, n)[i].shape == shape_view(s->properties@[i].schema),
    decreases n,
{
    if n > 0 {
        lemma_prop_views(s, n - 1);
        let before = prop_views(s, n - 1);
        let all = prop_views(s, n);
        assert forall|i: int| 0 <= i < n implies (#[trigger] all[i]).name
            == s->properties@[i].name@ && all[i].shape == shape_view(
            s->properties@[i].schema,
        ) by {
            if i < n - 1 {
                assert(all[i] == before[i]);
            }
        }
    }
}

/// What a property is made of is smaller than the schema.
proof fn lemma_part_smaller(s: Schema, i: int)
    requires
        s is Object,
        0 <= i < s->properties@.len(),
    ensures
        decreases_to!(s => s->properties@[i].schema),
{
    let part = s->properties@[i];
    assert(decreases_to!(s => s->properties));
    assert(decreases_to!(s->properties => s->properties@));
    assert(decreases_to!(s->properties@ => part));
    assert(decreases_to!(part => part.schema));
}

/// The type that a schema names, where it names one.
pub open spec fn named_kind(s: Shape) -> Option<Kind> {
    match s {
        Shape::Any => None,
        Shape::Typed(k) => Some(k),
        Shape::Array(_) => Some(Kind::One("array"@)),
        Shape::Object { .. } => Some(Kind::One("object"@)),
    }
}

/// The position of the first property of this name, from `from` on.
pub open spec fn prop_position(props: Seq<Prop>, name: Seq<char>, from: int) -> Option<int>
    decreases props.len() - from,
{
    if from < 0 || from >= props.len() {
        None
    } else if props[from].name == name {
        Some(from)
    } else {
        prop_position(props, name, from + 1)
    }
}

/// The properties, of the first `n`, that the others do not have.
pub open spec fn only_right(left: Seq<Prop>, right: Seq<Prop>, n: int) -> Seq<Prop>
    decreases n,
{
    if n <= 0 {
        Seq::empty()
    } else {
        let before = only_right(left, right, n - 1);
        if prop_position(left, right[n - 1].name, 0) is None {
            before.push(right[n - 1])
        } else {
            before
        }
    }
}

/// The names, of the first `n`, that are among the others.
pub open spec fn common_names(left: Seq<Seq<char>>, right: Seq<Seq<char>>, n: int) -> Seq<Seq<char>>
    decreases n,
{
    if n <= 0 {
        Seq::empty()
    } else {
        let before = common_names(left, right, n - 1);
        if right.contains(left[n - 1]) {
            before.push(left[n - 1])
        } else {
            before
        }
    }
}

/// The schema of what either schema describes. What both have is merged; an
/// object needs only what both need.
pub open spec fn merged(left: Shape, right: Shape) -> Shape
    decreases left, 1int, 0int,
{
    if left == right {
        left
    } else {
        match (left, right) {
            (
                Shape::Object { properties: a, required: need_a },
                Shape::Object { properties: b, required: need_b },
            ) => Shape::Object {
                properties: merged_props(left, b, a.len() as int) + only_right(
                    a,
                    b,
                    b.len() as int,
                ),
                required: common_names(need_a, need_b, need_a.len() as int),
            },
            (Shape::Array(a), Shape::Array(b)) => Shape::Array(Box::new(merged(*a, *b))),
            _ => match (named_kind(left), named_kind(right)) {
                (Some(a), Some(b)) => Shape::Typed(Kind::Pair(Box::new(a), Box::new(b))),
                _ => Shape::Any,
            },
        }
    }
}

/// The first `n` properties of an object's schema, each merged with that of the
/// same name among the others.
pub open spec fn merged_props(left: Shape, right: Seq<Prop>, n: int) -> Seq<Prop>
    decreases left, 0int, n,
{
    match left {
        Shape::Object { properties: a, .. } => if 0 < n <= a.len() {
            merged_props(left, right, n - 1).push(
                Prop {
                    name: a[n - 1].name,
                    shape: match prop_position(right, a[n - 1].name, 0) {
                        Some(j) => merged(a[n - 1].shape, right[j].shape),
                        None => a[n - 1].shape,
                    },
                },
            )
        } else {
            Seq::empty()
        },
        _ => Seq::empty(),
    }
}

/// The schema that a value suggests.
pub open spec fn inferred(value: Json) -> Shape
    decreases value, 1int, 0int,
{
    match value {
        Json::Array(items) => Shape::Array(
            Box::new(
                if items@.len() == 0 {
                    Shape::Any
                } else {
                    inferred_items(value, items@.len() as int)
                },
            ),
        ),
        Json::Object(fields) => Shape::Object {
            properties: inferred_props(value, fields@.len() as int),
            required: Seq::new(fields@.len(), |i: int| fields@[i].key@),
        },
        _ => Shape::Typed(Kind::One(type_of(value))),
    }
}

/// The schema that the first `n` items of a list suggest together.
pub open spec fn inferred_items(value: Json, n: int) -> Shape
    decreases value, 0int, n,
{
    match value {
        Json::Array(items) => if 1 < n <= items@.len() {
            merged(inferred_items(value, n - 1), inferred(items@[n - 1]))
        } else if n == 1 && items@.len() > 0 {
            inferred(items@[0])
        } else {
            Shape::Any
        },
        _ => Shape::Any,
    }
}

/// The schemas that the first `n` entries of an object suggest.
pub open spec fn inferred_props(value: Json, n: int) -> Seq<Prop>
    decreases value, 0int, n,
{
    match value {
        Json::Object(fields) => if 0 < n <= fields@.len() {
            inferred_props(value, n - 1).push(
                Prop { name: fields@[n - 1].key@, shape: inferred(fields@[n - 1].value) },
            )
        } else {
            Seq::empty()
        },
        _ => Seq::empty(),
    }
}

/// A copy of a type.
fn copy_type(t: &TypeName) -> (r: TypeName)
    ensures
        kind_view(r) == kind_view(*t),
    decreases *t,
{
    match t {
        TypeName::One(s) => TypeName::One(*s),
        TypeName::Pair(a, b) => TypeName::Pair(Box::new(copy_type(a)), Box::new(copy_type(b))),
    }
}

/// Whether two types are the same.
fn same_type(a: &TypeName, b: &TypeName) -> (r: bool)
    ensures
        r == (kind_view(*a) == kind_view(*b)),
    decreases *a,
{
    match (a, b) {
        (TypeName::One(x), TypeName::One(y)) => str_eq(x, y),
        (TypeName::Pair(p, q), TypeName::Pair(x, y)) => same_type(p, x) && same_type(q, y),
        _ => false,
    }
}

/// The properties by their texts are those of the list.
pub open spec fn list_views(properties: Seq<Property>) -> Seq<Prop> {
    Seq::new(
        properties.len(),
        |i: int|
            Prop { name: properties[i].name@, shape: shape_view(properties[i].schema) },
    )
}

/// The properties of an object's schema by their texts.
proof fn lemma_object_view(s: Schema)
    requires
        s is Object,
    ensures
        shape_view(s) == (Shape::Object {
            properties: list_views(s->properties@),
            required: views(s->required@),
        }),
{
    lemma_prop_views(s, s->properties@.len() as int);
    assert(prop_views(s, s->properties@.len() as int) =~= list_views(s->properties@));
}

/// A copy of a schema.
pub fn copy_schema(s: &Schema) -> (r: Schema)
    ensures
        shape_view(r) == shape_view(*s),
    decreases *s,
{
    match s {
        Schema::Any => Schema::Any,
        Schema::Typed(t) => Schema::Typed(copy_type(t)),
        Schema::Array(items) => Schema::Array(Box::new(copy_schema(items))),
        Schema::Object { properties, required } => {
            let mut props: Vec<Property> = Vec::new();
            for i in 0..properties.len()
                invariant
                    *s == (Schema::Object { properties: *properties, required: *required }),
                    props@.len() == i,
                    forall|k: int|
                        0 <= k < i ==> (#[trigger] props@[k]).name@ == properties@[k].name@
                            && shape_view(props@[k].schema) == shape_view(properties@[k].schema),
            {
                proof {
                    lemma_part_smaller(*s, i as int);
                }
                let schema = copy_schema(&properties[i].schema);
                props.push(Property { name: properties[i].name.clone(), schema });
            }
            let needed = crate::indexer::runtime::copy_texts(required.as_slice());
            let out = Schema::Object { properties: props, required: needed };
            proof {
                lemma_object_view(out);
                lemma_object_view(*s);
                assert(list_views(props@) =~= list_views(properties@));
            }
            out
        },
    }
}

/// Whether two lists of texts are the same.
fn same_texts(a: &[String], b: &[String]) -> (r: bool)
    ensures
        r == (views(a@) == views(b@)),
{
    assert(views(a@).len() == a@.len());
    assert(views(b@).len() == b@.len());
    if a.len() != b.len() {
        return false;
    }
    for i in 0..a.len()
        invariant
            a@.len() == b@.len(),
            forall|k: int| 0 <= k < i ==> (#[trigger] a@[k])@ == b@[k]@,
    {
        if !str_eq(a[i].as_str(), b[i].as_str()) {
            assert(views(a@)[i as int] != views(b@)[i as int]);
            return false;
        }
    }
    assert(views(a@) =~= views(b@));
    true
}

/// Whether two schemas are the same.
fn same_schema(a: &Schema, b: &Schema) -> (r: bool)
    ensures
        r == (shape_view(*a) == shape_view(*b)),
    decreases *a,
{
    match (a, b) {
        (Schema::Any, Schema::Any) => true,
        (Schema::Typed(x), Schema::Typed(y)) => same_type(x, y),
        (Schema::Array(x), Schema::Array(y)) => same_schema(x, y),
        (
            Schema::Object { properties: p, required: m },
            Schema::Object { properties: q, required: n },
        ) => {
            proof {
                lemma_object_view(*a);
                lemma_object_view(*b);
            }
            assert(list_views(p@).len() == p@.len());
            assert(list_views(q@).len() == q@.len());
            if p.len() != q.len() || !same_texts(m.as_slice(), n.as_slice()) {
                return false;
            }
            for i in 0..p.len()
                invariant
                    *a == (Schema::Object { properties: *p, required: *m }),
                    shape_view(*a) == (Shape::Object {
                        properties: list_views(p@),
                        required: views(m@),
                    }),
                    shape_view(*b) == (Shape::Object {
                        properties: list_views(q@),
                        required: views(n@),
                    }),
                    p@.len() == q@.len(),
                    forall|k: int|
                        0 <= k < i ==> #[trigger] list_views(p@)[k] == list_views(q@)[k],
            {
                if !str_eq(p[i].name.as_str(), q[i].name.as_str()) || !same_schema(
                    &p[i].schema,
                    &q[i].schema,
                ) {
                    assert(list_views(p@)[i as int] != list_views(q@)[i as int]);
                    return false;
                }
            }
            assert(list_views(p@) =~= list_views(q@));
            true
        },
        _ => false,
    }
}

/// The position of the property of this name.
fn find_property(properties: &[Property], name: &str) -> (r: Option<usize>)
    ensures
        (match r {
            Some(i) => Some(i as int),
            None => None,
        }) == prop_position(list_views(properties@), name@, 0),
        r matches Some(i) ==> i < properties@.len(),
{
    let ghost all = list_views(properties@);
    let mut i: usize = 0;
    while i < properties.len()
        invariant
            i <= properties@.len(),
            all == list_views(properties@),
            prop_position(all, name@, 0) == prop_position(all, name@, i as int),
        decreases properties@.len() - i,
    {
        assert(all[i as int].name == properties@[i as int].name@);
        if str_eq(properties[i].name.as_str(), name) {
            return Some(i);
        }
        i += 1;
    }
    None
}

/// The type that a schema names.
fn type_named(s: &Schema) -> (r: Option<TypeName>)
    ensures
        (match r {
            Some(t) => Some(kind_view(t)),
            None => None,
        }) == named_kind(shape_view(*s)),
{
    match s {
        Schema::Any => None,
        Schema::Typed(t) => Some(copy_type(t)),
        Schema::Array(_) => Some(TypeName::One("array")),
        Schema::Object { .. } => Some(TypeName::One("object")),
    }
}

/// The names that are among the others.
fn keep_common(left: &[String], right: &[String]) -> (r: Vec<String>)
    ensures
        views(r@) == common_names(views(left@), views(right@), left@.len() as int),
{
    let ghost a = views(left@);
    let ghost b = views(right@);
    let mut out: Vec<String> = Vec::new();
    assert(views(out@) =~= Seq::<Seq<char>>::empty());
    for i in 0..left.len()
        invariant
            a == views(left@),
            b == views(right@),
            views(out@) == common_names(a, b, i as int),
    {
        assert(a[i as int] == left@[i as int]@);
        if holds(right, left[i].as_str()) {
            let ghost before = views(out@);
            out.push(left[i].clone());
            assert(views(out@) =~= before.push(a[i as int]));
        }
    }
    out
}

/// The schema of what either schema describes.
pub fn merge_schemas(left: &Schema, right: &Schema) -> (r: Schema)
    ensures
        shape_view(r) == merged(shape_view(*left), shape_view(*right)),
    decreases *left,
{
    if same_schema(left, right) {
        return copy_schema(left);
    }
    match (left, right) {
        (
            Schema::Object { properties: p, required: m },
            Schema::Object { properties: q, required: n },
        ) => {
            let ghost a = list_views(p@);
            let ghost b = list_views(q@);
            let ghost whole = shape_view(*left);
            proof {
                lemma_object_view(*left);
                lemma_object_view(*right);
            }
            let mut props: Vec<Property> = Vec::new();
            assert(list_views(props@) =~= Seq::<Prop>::empty());
            for i in 0..p.len()
                invariant
                    *left == (Schema::Object { properties: *p, required: *m }),
                    whole == (Shape::Object { properties: a, required: views(m@) }),
                    a == list_views(p@),
                    b == list_views(q@),
                    list_views(props@) == merged_props(whole, b, i as int),
            {
                let own = &p[i];
                assert(a[i as int].name == own.name@);
                let schema: Schema = match find_property(q.as_slice(), own.name.as_str()) {
                    Some(j) => {
                        assert(b[j as int].shape == shape_view(q@[j as int].schema));
                        proof {
                            lemma_part_smaller(*left, i as int);
                        }
                        merge_schemas(&p[i].schema, &q[j].schema)
                    },
                    None => copy_schema(&own.schema),
                };
                let ghost before = list_views(props@);
                let ghost shape = shape_view(schema);
                props.push(Property { name: own.name.clone(), schema });
                assert(list_views(props@) =~= before.push(Prop { name: own.name@, shape }));
            }
            let ghost first = list_views(props@);
            assert(first + only_right(a, b, 0) =~= first);
            for i in 0..q.len()
                invariant
                    a == list_views(p@),
                    b == list_views(q@),
                    list_views(props@) == first + only_right(a, b, i as int),
            {
                let own = &q[i];
                assert(b[i as int].name == own.name@);
                if find_property(p.as_slice(), own.name.as_str()).is_none() {
                    let ghost before = list_views(props@);
                    props.push(
                        Property { name: own.name.clone(), schema: copy_schema(&own.schema) },
                    );
                    assert(list_views(props@) =~= before.push(b[i as int]));
                    assert(list_views(props@) =~= first + only_right(a, b, i + 1));
                }
            }
            assert(a.len() == p@.len() && b.len() == q@.len());
            let required = keep_common(m.as_slice(), n.as_slice());
            let out = Schema::Object { properties: props, required };
            proof {
                lemma_object_view(out);
                assert(views(m@).len() == m@.len());
            }
            out
        },
        (Schema::Array(a), Schema::Array(b)) => {
            let items = merge_schemas(a, b);
            Schema::Array(Box::new(items))
        },
        _ => match (type_named(left), type_named(right)) {
            (Some(a), Some(b)) => Schema::Typed(TypeName::Pair(Box::new(a), Box::new(b))),
            _ => Schema::Any,
        },
    }
}

/// The schema that a value suggests.
pub fn infer_schema(value: &Json) -> (r: Schema)
    ensures
        shape_view(r) == inferred(*value),
    decreases *value,
{
    match value {
        Json::Array(items) => {
            if items.len() == 0 {
                assert(shape_view(Schema::Any) == Shape::Any);
                return Schema::Array(Box::new(Schema::Any));
            }
            let mut schema = infer_schema(&items[0]);
            let mut i: usize = 1;
            while i < items.len()
                invariant
                    1 <= i <= items@.len(),
                    *value == Json::Array(*items),
                    shape_view(schema) == inferred_items(*value, i as int),
                decreases items@.len() - i,
            {
                let next = infer_schema(&items[i]);
                schema = merge_schemas(&schema, &next);
                i += 1;
            }
            Schema::Array(Box::new(schema))
        },
        Json::Object(fields) => {
            let mut props: Vec<Property> = Vec::new();
            let mut required: Vec<String> = Vec::new();
            assert(list_views(props@) =~= Seq::<Prop>::empty());
            for i in 0..fields.len()
                invariant
                    *value == Json::Object(*fields),
                    list_views(props@) == inferred_props(*value, i as int),
                    required@.len() == i,
                    forall|k: int| 0 <= k < i ==> (#[trigger] required@[k])@ == fields@[k].key@,
            {
                let field = &fields[i];
                let schema = infer_schema(&field.value);
                let ghost before = list_views(props@);
                let ghost shape = shape_view(schema);
                props.push(Property { name: field.key.clone(), schema });
                assert(list_views(props@) =~= before.push(Prop { name: field.key@, shape }));
                required.push(field.key.clone());
            }
            let out = Schema::Object { properties: props, required };
            proof {
                lemma_object_view(out);
                assert(views(required@) =~= Seq::new(fields@.len(), |i: int| fields@[i].key@));
            }
            out
        },
        _ => Schema::Typed(TypeName::One(value_type(value))),
    }
}

/// A schema merged with itself is that schema.
pub proof fn law_merge_same(s: Shape)
    ensures
        merged(s, s) == s,
{
}

/// A merged object needs nothing that one of the two does not need.
pub proof fn law_merged_needs(left: Seq<Seq<char>>, right: Seq<Seq<char>>, n: int)
    requires
        0 <= n <= left.len(),
    ensures
        forall|i: int|
            #![trigger common_names(left, right, n)[i]]
            0 <= i < common_names(left, right, n).len() ==> right.contains(
                common_names(left, right, n)[i],
            ) && left.contains(common_names(left, right, n)[i]),
    decreases n,
{
    if n > 0 {
        law_merged_needs(left, right, n - 1);
        let before = common_names(left, right, n - 1);
        let all = common_names(left, right, n);
        assert forall|i: int| #![trigger all[i]] 0 <= i < all.len() implies right.contains(all[i])
            && left.contains(all[i]) by {
            if i < before.len() {
                assert(all[i] == before[i]);
            } else {
                assert(left[n - 1] == all[i]);
            }
        }
    }
}

/// The schema of an object has a property for each field, in their order, and requires all of
/// them.
pub proof fn law_inferred_object(value: Json, n: int)
    requires
        value matches Json::Object(fields) && 0 <= n <= fields@.len(),
    ensures
        value matches Json::Object(fields) ==> {
            &&& inferred_props(value, n).len() == n
            &&& forall|i: int|
                0 <= i < n ==> (#[trigger] inferred_props(value, n)[i]).name == fields@[i].key@
                    && inferred_props(value, n)[i].shape == inferred(fields@[i].value)
            &&& inferred(value) matches Shape::Object { properties, required } && properties
                == inferred_props(value, fields@.len() as int) && required.len() == fields@.len()
                && forall|i: int| 0 <= i < required.len() ==> required[i] == fields@[i].key@
        },
    decreases n,
{
    if n > 0 {
        law_inferred_object(value, n - 1);
    }
}

/// Where a property stands is the first place under its name.
proof fn lemma_prop_position(props: Seq<Prop>, name: Seq<char>, from: int)
    requires
        0 <= from <= props.len(),
    ensures
        prop_position(props, name, from) matches Some(k) ==> from <= k < props.len()
            && props[k].name == name,
        prop_position(props, name, from) is None ==> forall|j: int|
            from <= j < props.len() ==> (#[trigger] props[j]).name != name,
    decreases props.len() - from,
{
    if from < props.len() {
        lemma_prop_position(props, name, from + 1);
    }
}

/// A merged object keeps each property of the left in its place and has, behind them, those
/// that only the right has.
pub proof fn law_merged_props(left: Shape, right: Seq<Prop>, n: int)
    requires
        left matches Shape::Object { properties, .. } && 0 <= n <= properties.len(),
    ensures
        left matches Shape::Object { properties, .. } ==> {
            &&& merged_props(left, right, n).len() == n
            &&& forall|i: int|
                0 <= i < n ==> (#[trigger] merged_props(left, right, n)[i]).name
                    == properties[i].name
        },
    decreases n,
{
    if n > 0 {
        law_merged_props(left, right, n - 1);
    }
}

/// What only the right has is what the left has not.
pub proof fn law_only_right(left: Seq<Prop>, right: Seq<Prop>, n: int, p: Prop)
    requires
        0 <= n <= right.len(),
    ensures
        only_right(left, right, n).contains(p) <==> (exists|i: int|
            0 <= i < n && #[trigger] right[i] == p) && forall|j: int|
            0 <= j < left.len() ==> (#[trigger] left[j]).name != p.name,
    decreases n,
{
    if n > 0 {
        law_only_right(left, right, n - 1, p);
        lemma_prop_position(left, right[n - 1].name, 0);
        let before = only_right(left, right, n - 1);
        let all = only_right(left, right, n);
        if before.contains(p) {
            let i = before.index_of(p);
            assert(all[i] == p);
        }
        if all.contains(p) {
            let i = all.index_of(p);
            if i < before.len() {
                assert(before[i] == p);
            } else {
                assert(right[n - 1] == p);
            }
        }
        if right[n - 1] == p && prop_position(left, p.name, 0) is None {
            assert(all[before.len() as int] == p);
        }
        if exists|i: int| 0 <= i < n && #[trigger] right[i] == p {
            let i = choose|i: int| 0 <= i < n && #[trigger] right[i] == p;
            if i < n - 1 {
                assert(right[i] == p);
            }
        }
        if exists|i: int| 0 <= i < n - 1 && #[trigger] right[i] == p {
            let i = choose|i: int| 0 <= i < n - 1 && #[trigger] right[i] == p;
            assert(0 <= i < n && right[i] == p);
        }
        if prop_position(left, p.name, 0) is Some {
            let k = prop_position(left, p.name, 0)->0;
            lemma_prop_position(left, p.name, 0);
            assert(left[k].name == p.name);
        }
    }
}

} // verus!

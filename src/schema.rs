use vstd::prelude::*;

use crate::ext_nat::{ext_add, ExtNat};
use crate::json::{entry_index, get, has_entry, Json};

verus! {

/// Why a JSON tree is not a schema that this library understands.
#[derive(Debug, Clone, Copy, PartialEq, Eq, Structural)]
pub enum SchemaErr {
    InvalidSchema,
    ArrNeedsItems,
    ObjNeedsProperties,
}

/// The four scalar kinds of JSON.
#[derive(Clone, Copy, Debug, Hash, PartialEq, Eq, Structural, PartialOrd, Ord)]
pub enum Ground {
    Num,
    Bool,
    String,
    Null,
}

/// A schema: `Ground` matches scalars of one kind, `Arr` arrays whose every
/// item matches the child, `Obj` objects whose named properties match their
/// children, `True` everything and `False` nothing.
///
/// The properties of an `Obj` are kept in strictly ascending order of their
/// names (see [`wf`]); the parser builds them so.
#[derive(Debug, Hash, Eq)]
pub enum Schema {
    Ground(Ground),
    Arr(Box<Schema>),
    Obj(Vec<(String, Schema)>),
    True,
    False,
}

/// The mathematical value of a [`Schema`].
pub enum SchemaModel {
    Ground(Ground),
    Arr(Box<SchemaModel>),
    Obj(Seq<(Seq<char>, SchemaModel)>),
    True,
    False,
}

impl View for Schema {
    type V = SchemaModel;

    open spec fn view(&self) -> SchemaModel
        decreases self, 0nat,
    {
        match self {
            Schema::Ground(g) => SchemaModel::Ground(*g),
            Schema::Arr(s) => SchemaModel::Arr(Box::new((**s).view())),
            Schema::Obj(props) => SchemaModel::Obj(props_model(props@)),
            Schema::True => SchemaModel::True,
            Schema::False => SchemaModel::False,
        }
    }
}

/// The model of a list of properties: each name and schema by its model.
pub open spec fn props_model(ps: Seq<(String, Schema)>) -> Seq<(Seq<char>, SchemaModel)>
    decreases ps, 1nat,
{
    if ps.len() == 0 {
        Seq::empty()
    } else {
        props_model(ps.drop_last()).push((ps.last().0@, ps.last().1.view()))
    }
}

pub proof fn lemma_props_model(ps: Seq<(String, Schema)>)
    ensures
        props_model(ps).len() == ps.len(),
        forall|i: int| 0 <= i < ps.len() ==> #[trigger] props_model(ps)[i] == (ps[i].0@, ps[i].1@),
    decreases ps.len(),
{
    if ps.len() > 0 {
        lemma_props_model(ps.drop_last());
        assert(props_model(ps) == props_model(ps.drop_last()).push((ps.last().0@, ps.last().1@)));
        assert forall|i: int| 0 <= i < ps.len() implies #[trigger] props_model(ps)[i] == (ps[i].0@, ps[i].1@) by {
            if i < ps.len() - 1 {
                assert(ps.drop_last()[i] == ps[i]);
            }
        }
    }
}

/// The properties of an object model, by name and schema.
pub type Props = Seq<(Seq<char>, SchemaModel)>;

/// Whether `j` is the first position of name `k`.
pub open spec fn is_first_key(m: Props, k: Seq<char>, j: int) -> bool {
    &&& 0 <= j < m.len()
    &&& m[j].0 == k
    &&& forall|i: int| 0 <= i < j ==> m[i].0 != k
}

pub open spec fn has_key(m: Props, k: Seq<char>) -> bool {
    exists|j: int| is_first_key(m, k, j)
}

/// The first position of name `k`, where it has one.
pub open spec fn key_index(m: Props, k: Seq<char>) -> int {
    choose|j: int| is_first_key(m, k, j)
}

pub proof fn lemma_first_key(m: Props, k: Seq<char>, j: int)
    requires
        is_first_key(m, k, j),
    ensures
        has_key(m, k),
        key_index(m, k) == j,
{
    let c = key_index(m, k);
    if c < j {
        assert(m[c].0 != k);
    } else if c > j {
        assert(m[j].0 != k);
    }
}

/// The first position of a property named `k`.
pub fn find_key(props: &Vec<(String, Schema)>, k: &String) -> (r: Option<usize>)
    ensures
        match r {
            Some(j) => is_first_key(props_model(props@), k@, j as int),
            None => !has_key(props_model(props@), k@),
        },
{
    proof {
        lemma_props_model(props@);
    }
    let ghost m = props_model(props@);
    let mut i: usize = 0;
    while i < props.len()
        invariant
            i <= props@.len(),
            m == props_model(props@),
            m.len() == props@.len(),
            forall|j: int| 0 <= j < props@.len() ==> #[trigger] m[j] == (props@[j].0@, props@[j].1@),
            forall|j: int| 0 <= j < i ==> m[j].0 != k@,
        decreases props@.len() - i,
    {
        if props[i].0 == *k {
            return Some(i);
        }
        i = i + 1;
    }
    proof {
        assert forall|j: int| !is_first_key(m, k@, j) by {
            if 0 <= j < m.len() {
                assert(m[j].0 != k@);
            }
        }
    }
    None
}

/// The edit distance between two schemas: zero for equal schemas; that of
/// the items for two arrays; for two objects, `Inf` where the target has a
/// name that the source lacks, else the sum over the source properties of
/// their distances, one for each that the target lacks; for an object and
/// another schema, one where some property of the object is that schema,
/// else `Inf`; one otherwise.
pub open spec fn distance(a: SchemaModel, b: SchemaModel) -> ExtNat
    decreases a, b, 0int,
{
    if a == b {
        ExtNat::Nat(0)
    } else {
        match (a, b) {
            (SchemaModel::Arr(x), SchemaModel::Arr(y)) => distance(*x, *y),
            (SchemaModel::Obj(m1), SchemaModel::Obj(m2)) => if forall|j: int|
                0 <= j < m2.len() ==> has_key(m1, #[trigger] m2[j].0) {
                props_distance(m1, m2, 0)
            } else {
                ExtNat::Inf
            },
            (SchemaModel::Obj(m), _) => if exists|i: int| 0 <= i < m.len() && #[trigger] m[i].1 == b {
                ExtNat::Nat(1)
            } else {
                ExtNat::Inf
            },
            _ => ExtNat::Nat(1),
        }
    }
}

/// The sum of the distances of the source properties from position `i` on.
pub open spec fn props_distance(m1: Props, m2: Props, i: int) -> ExtNat
    decreases m1, m2, m1.len() - i,
{
    if i < 0 || i >= m1.len() {
        ExtNat::Nat(0)
    } else {
        let d = if has_key(m2, m1[i].0) {
            let j = key_index(m2, m1[i].0);
            if 0 <= j < m2.len() {
                distance(m1[i].1, m2[j].1)
            } else {
                ExtNat::Inf
            }
        } else {
            ExtNat::Nat(1)
        };
        ext_add(d, props_distance(m1, m2, i + 1))
    }
}

/// The order of property names: lexicographic by code point.
pub open spec fn key_lt(a: Seq<char>, b: Seq<char>) -> bool
    decreases a.len(),
{
    if a.len() == 0 {
        b.len() > 0
    } else if b.len() == 0 {
        false
    } else if a[0] != b[0] {
        (a[0] as int) < (b[0] as int)
    } else {
        key_lt(a.drop_first(), b.drop_first())
    }
}

/// Whether the names of the properties strictly ascend.
pub open spec fn sorted_keys(m: Seq<(Seq<char>, SchemaModel)>) -> bool {
    forall|i: int, j: int| 0 <= i < j < m.len() ==> key_lt(m[i].0, m[j].0)
}

/// A schema whose every object has strictly ascending property names.
pub open spec fn wf(s: SchemaModel) -> bool
    decreases s,
{
    match s {
        SchemaModel::Arr(a) => wf(*a),
        SchemaModel::Obj(m) => sorted_keys(m) && forall|i: int| 0 <= i < m.len() ==> wf(#[trigger] m[i].1),
        _ => true,
    }
}

/// The properties with `(k, v)` put in their place: after the names below
/// `k`, in place of an entry named `k`, before the names above `k`.
pub open spec fn insert_prop(m: Seq<(Seq<char>, SchemaModel)>, k: Seq<char>, v: SchemaModel) -> Seq<
    (Seq<char>, SchemaModel),
>
    decreases m.len(),
{
    if m.len() == 0 {
        seq![(k, v)]
    } else if key_lt(m[0].0, k) {
        seq![m[0]] + insert_prop(m.drop_first(), k, v)
    } else if m[0].0 == k {
        seq![(k, v)] + m.drop_first()
    } else {
        seq![(k, v)] + m
    }
}

/// The schema that a JSON tree describes, or why it describes none.
pub open spec fn parse(v: Json) -> Result<SchemaModel, SchemaErr>
    decreases v, 0nat,
{
    match v {
        Json::Bool(b) => Ok(
            if b {
                SchemaModel::True
            } else {
                SchemaModel::False
            },
        ),
        Json::Object(obj) => if !has_entry(obj@, "type"@) {
            Err(SchemaErr::InvalidSchema)
        } else {
            let ty = obj@[entry_index(obj@, "type"@)].1;
            match ty {
                Json::String(name) => if name@ == "number"@ {
                    Ok(SchemaModel::Ground(Ground::Num))
                } else if name@ == "string"@ {
                    Ok(SchemaModel::Ground(Ground::String))
                } else if name@ == "boolean"@ {
                    Ok(SchemaModel::Ground(Ground::Bool))
                } else if name@ == "null"@ {
                    Ok(SchemaModel::Ground(Ground::Null))
                } else if name@ == "array"@ {
                    if has_entry(obj@, "items"@) {
                        match parse(obj@[entry_index(obj@, "items"@)].1) {
                            Ok(s) => Ok(SchemaModel::Arr(Box::new(s))),
                            Err(e) => Err(e),
                        }
                    } else {
                        Err(SchemaErr::ArrNeedsItems)
                    }
                } else if name@ == "object"@ {
                    if has_entry(obj@, "properties"@) && obj@[entry_index(
                        obj@,
                        "properties"@,
                    )].1 is Object {
                        let props = obj@[entry_index(obj@, "properties"@)].1->Object_0;
                        match parse_props(props@, props@.len()) {
                            Ok(m) => Ok(SchemaModel::Obj(m)),
                            Err(e) => Err(e),
                        }
                    } else {
                        Err(SchemaErr::ObjNeedsProperties)
                    }
                } else {
                    Err(SchemaErr::InvalidSchema)
                },
                _ => Err(SchemaErr::InvalidSchema),
            }
        },
        _ => Err(SchemaErr::InvalidSchema),
    }
}

/// The properties of the first `n` entries, each put in its place in turn;
/// the first entry whose value is no schema decides the error.
pub open spec fn parse_props(props: Seq<(String, Json)>, n: nat) -> Result<
    Seq<(Seq<char>, SchemaModel)>,
    SchemaErr,
>
    decreases props, n,
{
    if n == 0 || n > props.len() {
        Ok(Seq::empty())
    } else {
        match parse_props(props, (n - 1) as nat) {
            Ok(m) => match parse(props[n - 1].1) {
                Ok(s) => Ok(insert_prop(m, props[n - 1].0@, s)),
                Err(e) => Err(e),
            },
            Err(e) => Err(e),
        }
    }
}

proof fn lemma_insert_prefix(
    m: Seq<(Seq<char>, SchemaModel)>,
    k: Seq<char>,
    v: SchemaModel,
    i: int,
)
    requires
        0 <= i <= m.len(),
        forall|j: int| 0 <= j < i ==> key_lt(#[trigger] m[j].0, k),
    ensures
        insert_prop(m, k, v) == m.take(i) + insert_prop(m.skip(i), k, v),
    decreases i,
{
    if i == 0 {
        assert(m.take(0) + insert_prop(m.skip(0), k, v) =~= insert_prop(m, k, v)) by {
            assert(m.skip(0) =~= m);
        }
    } else {
        let t = m.drop_first();
        assert forall|j: int| 0 <= j < i - 1 implies key_lt(#[trigger] t[j].0, k) by {
            assert(t[j] == m[j + 1]);
        }
        lemma_insert_prefix(t, k, v, i - 1);
        assert(t.skip(i - 1) =~= m.skip(i));
        assert(seq![m[0]] + t.take(i - 1) =~= m.take(i));
        assert(seq![m[0]] + (t.take(i - 1) + insert_prop(t.skip(i - 1), k, v)) =~= m.take(i)
            + insert_prop(m.skip(i), k, v));
    }
}

pub proof fn lemma_key_lt_irreflexive(a: Seq<char>)
    ensures
        !key_lt(a, a),
    decreases a.len(),
{
    if a.len() > 0 {
        lemma_key_lt_irreflexive(a.drop_first());
    }
}

pub proof fn lemma_key_lt_total(a: Seq<char>, b: Seq<char>)
    ensures
        a == b || key_lt(a, b) || key_lt(b, a),
    decreases a.len(),
{
    if a.len() > 0 && b.len() > 0 && a[0] == b[0] {
        lemma_key_lt_total(a.drop_first(), b.drop_first());
        if a.drop_first() == b.drop_first() {
            assert(a =~= seq![a[0]] + a.drop_first());
            assert(b =~= seq![b[0]] + b.drop_first());
        }
    } else if a.len() == 0 && b.len() == 0 {
        assert(a =~= b);
    } else if a.len() > 0 && b.len() > 0 {
        assert((a[0] as int) != (b[0] as int));
    }
}

pub proof fn lemma_key_lt_transitive(a: Seq<char>, b: Seq<char>, c: Seq<char>)
    requires
        key_lt(a, b),
        key_lt(b, c),
    ensures
        key_lt(a, c),
    decreases a.len(),
{
    if a.len() > 0 && b.len() > 0 && c.len() > 0 && a[0] == b[0] && b[0] == c[0] {
        lemma_key_lt_transitive(a.drop_first(), b.drop_first(), c.drop_first());
    }
}

/// Every name of `insert_prop(m, k, v)` is `k` or a name of `m`, and every
/// schema in it is `v` or a schema of `m`.
proof fn lemma_insert_members(m: Props, k: Seq<char>, v: SchemaModel)
    ensures
        forall|i: int|
            0 <= i < insert_prop(m, k, v).len() ==> (#[trigger] insert_prop(m, k, v)[i] == (k, v)
                || exists|j: int| 0 <= j < m.len() && insert_prop(m, k, v)[i] == m[j]),
    decreases m.len(),
{
    let r = insert_prop(m, k, v);
    if m.len() == 0 {
    } else if key_lt(m[0].0, k) {
        let t = m.drop_first();
        lemma_insert_members(t, k, v);
        assert forall|i: int| 0 <= i < r.len() implies (#[trigger] r[i] == (k, v) || exists|j: int|
            0 <= j < m.len() && r[i] == m[j]) by {
            if i == 0 {
                assert(r[0] == m[0]);
            } else {
                let x = insert_prop(t, k, v)[i - 1];
                assert(r[i] == x);
                if x != (k, v) {
                    let j = choose|j: int| 0 <= j < t.len() && x == t[j];
                    assert(m[j + 1] == t[j]);
                }
            }
        }
    } else if m[0].0 == k {
        assert forall|i: int| 0 <= i < r.len() implies (#[trigger] r[i] == (k, v) || exists|j: int|
            0 <= j < m.len() && r[i] == m[j]) by {
            if i > 0 {
                assert(r[i] == m[i]);
            }
        }
    } else {
        assert forall|i: int| 0 <= i < r.len() implies (#[trigger] r[i] == (k, v) || exists|j: int|
            0 <= j < m.len() && r[i] == m[j]) by {
            if i > 0 {
                assert(r[i] == m[i - 1]);
            }
        }
    }
}

/// Putting a property in its place keeps the names strictly ascending.
pub proof fn lemma_insert_sorted(m: Props, k: Seq<char>, v: SchemaModel)
    requires
        sorted_keys(m),
    ensures
        sorted_keys(insert_prop(m, k, v)),
    decreases m.len(),
{
    let r = insert_prop(m, k, v);
    if m.len() == 0 {
    } else if key_lt(m[0].0, k) {
        let t = m.drop_first();
        assert(sorted_keys(t)) by {
            assert forall|i: int, j: int| 0 <= i < j < t.len() implies key_lt(t[i].0, t[j].0) by {
                assert(t[i] == m[i + 1] && t[j] == m[j + 1]);
            }
        }
        lemma_insert_sorted(t, k, v);
        lemma_insert_members(t, k, v);
        let it = insert_prop(t, k, v);
        assert forall|i: int, j: int| 0 <= i < j < r.len() implies key_lt(r[i].0, r[j].0) by {
            if i == 0 {
                let x = it[j - 1];
                assert(r[j] == x);
                if x != (k, v) {
                    let jj = choose|jj: int| 0 <= jj < t.len() && x == t[jj];
                    assert(t[jj] == m[jj + 1]);
                }
            } else {
                assert(r[i] == it[i - 1] && r[j] == it[j - 1]);
            }
        }
    } else if m[0].0 == k {
        assert forall|i: int, j: int| 0 <= i < j < r.len() implies key_lt(r[i].0, r[j].0) by {
            assert(r[j] == m[j]);
            if i > 0 {
                assert(r[i] == m[i]);
            }
        }
    } else {
        lemma_key_lt_total(m[0].0, k);
        assert forall|i: int, j: int| 0 <= i < j < r.len() implies key_lt(r[i].0, r[j].0) by {
            assert(r[j] == m[j - 1]);
            if i > 0 {
                assert(r[i] == m[i - 1]);
            } else if j > 1 {
                lemma_key_lt_transitive(k, m[0].0, m[j - 1].0);
            }
        }
    }
}

/// Every schema that the parser reads has strictly ascending property names
/// in each of its objects.
pub proof fn lemma_parse_wf(v: Json)
    requires
        parse(v) is Ok,
    ensures
        wf(parse(v)->Ok_0),
    decreases v, 0nat,
{
    reveal_strlit("number");
    reveal_strlit("string");
    reveal_strlit("boolean");
    reveal_strlit("null");
    reveal_strlit("array");
    reveal_strlit("object");
    match v {
        Json::Object(obj) => {
            if has_entry(obj@, "type"@) {
                let ty = obj@[entry_index(obj@, "type"@)].1;
                if let Json::String(name) = ty {
                    if name@ == "array"@ {
                        assert(name@[0] != "number"@[0]);
                        assert(name@[0] != "string"@[0]);
                        assert(name@[0] != "boolean"@[0]);
                        assert(name@[0] != "null"@[0]);
                        let idx = entry_index(obj@, "items"@);
                        let e = obj@[idx];
                        assert(decreases_to!(v => v->Object_0));
                        assert(decreases_to!(obj@ => obj@[idx]));
                        assert(decreases_to!(e => e.1));
                        lemma_parse_wf(e.1);
                    } else if name@ == "object"@ {
                        assert(name@[0] != "number"@[0]);
                        assert(name@[0] != "string"@[0]);
                        assert(name@[0] != "boolean"@[0]);
                        assert(name@[0] != "null"@[0]);
                        assert(name@[0] != "array"@[0]);
                        let idx = entry_index(obj@, "properties"@);
                        let e = obj@[idx];
                        let props = e.1->Object_0;
                        assert(decreases_to!(v => v->Object_0));
                        assert(decreases_to!(obj@ => obj@[idx]));
                        assert(decreases_to!(e => e.1));
                        assert(decreases_to!(e.1 => e.1->Object_0));
                        assert(decreases_to!(props => props@));
                        lemma_parse_props_wf(props@, props@.len());
                    }
                }
            }
        },
        _ => {},
    }
}

/// The properties that the parser reads ascend strictly, and each schema
/// among them is well formed.
pub proof fn lemma_parse_props_wf(props: Seq<(String, Json)>, n: nat)
    requires
        parse_props(props, n) is Ok,
    ensures
        sorted_keys(parse_props(props, n)->Ok_0),
        forall|i: int|
            0 <= i < parse_props(props, n)->Ok_0.len() ==> wf(
                #[trigger] parse_props(props, n)->Ok_0[i].1,
            ),
    decreases props, n,
{
    if n == 0 || n > props.len() {
    } else {
        let prev = (n - 1) as nat;
        lemma_parse_props_wf(props, prev);
        lemma_parse_wf(props[n - 1].1);
        let m = parse_props(props, prev)->Ok_0;
        let k = props[n - 1].0@;
        let s = parse(props[n - 1].1)->Ok_0;
        lemma_insert_sorted(m, k, s);
        lemma_insert_members(m, k, s);
        let r = insert_prop(m, k, s);
        assert forall|i: int| 0 <= i < r.len() implies wf(#[trigger] r[i].1) by {
            if r[i] != (k, s) {
                let j = choose|j: int| 0 <= j < m.len() && r[i] == m[j];
                assert(wf(m[j].1));
            }
        }
    }
}

proof fn lemma_parse_props_err(props: Seq<(String, Json)>, i: nat, n: nat)
    requires
        i <= n <= props.len(),
        parse_props(props, i) is Err,
    ensures
        parse_props(props, n) == parse_props(props, i),
    decreases n - i,
{
    if i < n {
        lemma_parse_props_err(props, i, (n - 1) as nat);
    }
}

/// Whether `a` comes before `b` in the order of names.
pub fn key_less(a: &String, b: &String) -> (r: bool)
    ensures
        r == key_lt(a@, b@),
{
    let la = a.as_str().unicode_len();
    let lb = b.as_str().unicode_len();
    let mut i: usize = 0;
    proof {
        assert(a@.skip(0) =~= a@);
        assert(b@.skip(0) =~= b@);
    }
    while i < la && i < lb
        invariant
            la == a@.len(),
            lb == b@.len(),
            i <= la,
            i <= lb,
            key_lt(a@, b@) == key_lt(a@.skip(i as int), b@.skip(i as int)),
        decreases la - i,
    {
        let ca = a.as_str().get_char(i);
        let cb = b.as_str().get_char(i);
        proof {
            assert(a@.skip(i as int)[0] == ca);
            assert(b@.skip(i as int)[0] == cb);
        }
        if ca != cb {
            return (ca as u32) < (cb as u32);
        }
        proof {
            assert(a@.skip(i as int).drop_first() =~= a@.skip(i + 1));
            assert(b@.skip(i as int).drop_first() =~= b@.skip(i + 1));
        }
        i = i + 1;
    }
    i == la && i < lb
}

/// Puts the property `(k, v)` in its place among the properties.
pub fn insert_sorted(props: &mut Vec<(String, Schema)>, k: String, v: Schema)
    ensures
        props_model(final(props)@) == insert_prop(props_model(old(props)@), k@, v@),
{
    proof {
        lemma_props_model(props@);
    }
    let ghost m = props_model(props@);
    let mut i: usize = 0;
    let mut going = true;
    while going && i < props.len()
        invariant
            !going ==> i < props@.len() && !key_lt(m[i as int].0, k@),
            props@ == old(props)@,
            m == props_model(props@),
            m.len() == props@.len(),
            forall|j: int| 0 <= j < props@.len() ==> #[trigger] m[j] == (props@[j].0@, props@[j].1@),
            i <= props@.len(),
            forall|j: int| 0 <= j < i ==> key_lt(#[trigger] m[j].0, k@),
        decreases props@.len() - i + (if going { 1int } else { 0int }),
    {
        if key_less(&props[i].0, &k) {
            i = i + 1;
        } else {
            going = false;
        }
    }
    proof {
        lemma_insert_prefix(m, k@, v@, i as int);
    }
    let ghost kv = v@;
    if i < props.len() && props[i].0 == k {
        props.set(i, (k, v));
        proof {
            lemma_props_model(props@);
            assert(m.skip(i as int)[0] == m[i as int]);
            assert(m.skip(i as int).drop_first() =~= m.skip(i + 1));
            assert(props_model(props@) =~= m.take(i as int) + insert_prop(m.skip(i as int), k@, kv));
        }
    } else {
        props.insert(i, (k, v));
        proof {
            lemma_props_model(props@);
            if i < m.len() {
                assert(m.skip(i as int)[0] == m[i as int]);
            }
            assert(props_model(props@) =~= m.take(i as int) + insert_prop(m.skip(i as int), k@, kv));
        }
    }
}

/// Whether the text is `lit`.
fn is_text(t: &String, lit: &str) -> (r: bool)
    ensures
        r == (t@ == lit@),
{
    *t == String::from_str(lit)
}

impl From<bool> for Schema {
    fn from(value: bool) -> (r: Schema) {
        if value {
            Schema::True
        } else {
            Schema::False
        }
    }
}

impl vstd::std_specs::convert::FromSpecImpl<bool> for Schema {
    open spec fn obeys_from_spec() -> bool {
        true
    }

    open spec fn from_spec(v: bool) -> Schema {
        if v {
            Schema::True
        } else {
            Schema::False
        }
    }
}

impl Schema {
    pub fn num() -> (r: Schema)
        ensures
            r@ == SchemaModel::Ground(Ground::Num),
    {
        Schema::Ground(Ground::Num)
    }

    pub fn bool() -> (r: Schema)
        ensures
            r@ == SchemaModel::Ground(Ground::Bool),
    {
        Schema::Ground(Ground::Bool)
    }

    pub fn string() -> (r: Schema)
        ensures
            r@ == SchemaModel::Ground(Ground::String),
    {
        Schema::Ground(Ground::String)
    }

    pub fn null() -> (r: Schema)
        ensures
            r@ == SchemaModel::Ground(Ground::Null),
    {
        Schema::Ground(Ground::Null)
    }

    /// Reads a schema from a JSON tree. Its objects list their properties in
    /// strictly ascending order of names.
    pub fn try_from(value: &Json) -> (r: Result<Schema, SchemaErr>)
        ensures
            match r {
                Ok(s) => parse(*value) == Ok::<SchemaModel, SchemaErr>(s@) && wf(s@),
                Err(e) => parse(*value) == Err::<SchemaModel, SchemaErr>(e),
            },
    {
        let r = Schema::read(value);
        proof {
            if r is Ok {
                lemma_parse_wf(*value);
            }
        }
        r
    }

    fn read(value: &Json) -> (r: Result<Schema, SchemaErr>)
        ensures
            match r {
                Ok(s) => parse(*value) == Ok::<SchemaModel, SchemaErr>(s@),
                Err(e) => parse(*value) == Err::<SchemaModel, SchemaErr>(e),
            },
        decreases value,
    {
        match value {
            Json::Bool(b) => Ok(Schema::from(*b)),
            Json::Object(obj) => {
                let ty = match get(obj, "type") {
                    Some(t) => t,
                    None => {
                        return Err(SchemaErr::InvalidSchema);
                    },
                };
                let tyname = match ty {
                    Json::String(n) => n,
                    _ => {
                        return Err(SchemaErr::InvalidSchema);
                    },
                };
                if is_text(tyname, "number") {
                    Ok(Schema::num())
                } else if is_text(tyname, "string") {
                    Ok(Schema::string())
                } else if is_text(tyname, "boolean") {
                    Ok(Schema::bool())
                } else if is_text(tyname, "null") {
                    Ok(Schema::null())
                } else if is_text(tyname, "array") {
                    match get(obj, "items") {
                        Some(item_type) => {
                            proof {
                                let idx = entry_index(obj@, "items"@);
                                let e = obj@[idx];
                                assert(decreases_to!(*value => value->Object_0));
                                assert(decreases_to!(obj@ => obj@[idx]));
                                assert(decreases_to!(e => e.1));
                            }
                            match Schema::read(item_type) {
                                Ok(item) => Ok(Schema::Arr(Box::new(item))),
                                Err(e) => Err(e),
                            }
                        },
                        None => Err(SchemaErr::ArrNeedsItems),
                    }
                } else if is_text(tyname, "object") {
                    match get(obj, "properties") {
                        Some(Json::Object(props)) => {
                            let ghost idx = entry_index(obj@, "properties"@);
                            let ghost e = obj@[idx];
                            let mut subschemas: Vec<(String, Schema)> = Vec::new();
                            let mut i: usize = 0;
                            proof {
                                lemma_props_model(subschemas@);
                                assert(parse(*value) == match parse_props(props@, props@.len()) {
                                    Ok(m) => Ok(SchemaModel::Obj(m)),
                                    Err(e) => Err(e),
                                });
                            }
                            while i < props.len()
                                invariant
                                    parse(*value) == match parse_props(props@, props@.len()) {
                                        Ok(m) => Ok(SchemaModel::Obj(m)),
                                        Err(e) => Err(e),
                                    },
                                    *value == Json::Object(*obj),
                                    0 <= idx < obj@.len(),
                                    e == obj@[idx],
                                    e.1 == Json::Object(*props),
                                    i <= props@.len(),
                                    parse_props(props@, i as nat) == Ok::<
                                        Seq<(Seq<char>, SchemaModel)>,
                                        SchemaErr,
                                    >(props_model(subschemas@)),
                                decreases props@.len() - i,
                            {
                                proof {
                                    let p = props@[i as int];
                                    assert(decreases_to!(*value => value->Object_0));
                                    assert(decreases_to!(obj@ => obj@[idx]));
                                    assert(decreases_to!(e => e.1));
                                    assert(decreases_to!(e.1 => e.1->Object_0));
                                    assert(decreases_to!(props@ => props@[i as int]));
                                    assert(decreases_to!(p => p.1));
                                }
                                match Schema::read(&props[i].1) {
                                    Ok(sub) => {
                                        insert_sorted(&mut subschemas, props[i].0.clone(), sub);
                                    },
                                    Err(err) => {
                                        proof {
                                            lemma_parse_props_err(props@, (i + 1) as nat, props@.len());
                                            assert(parse_props(props@, props@.len()) == Err::<Seq<(Seq<char>, SchemaModel)>, SchemaErr>(err));
                                        }
                                        return Err(err);
                                    },
                                }
                                i = i + 1;
                            }
                            Ok(Schema::Obj(subschemas))
                        },
                        _ => Err(SchemaErr::ObjNeedsProperties),
                    }
                } else {
                    Err(SchemaErr::InvalidSchema)
                }
            },
            _ => Err(SchemaErr::InvalidSchema),
        }
    }

    /// The edit distance to `other`.
    pub fn edit_distance(&self, other: &Schema) -> (r: ExtNat)
        ensures
            r == distance(self@, other@),
        decreases self, other, 1int,
    {
        if self.same(other) {
            return ExtNat::Nat(0);
        }
        match (self, other) {
            (Schema::Arr(x), Schema::Arr(y)) => (**x).edit_distance(&**y),
            (Schema::Obj(_), Schema::Obj(_)) => self.objects_distance(other),
            (Schema::Obj(m), _) => {
                proof {
                    lemma_props_model(m@);
                }
                let ghost pm = props_model(m@);
                let mut i: usize = 0;
                while i < m.len()
                    invariant
                        self@ != other@,
                        self@ == SchemaModel::Obj(pm),
                        !(other@ is Obj),
                        i <= m@.len(),
                        pm == props_model(m@),
                        pm.len() == m@.len(),
                        forall|j: int| 0 <= j < m@.len() ==> #[trigger] pm[j] == (m@[j].0@, m@[j].1@),
                        forall|j: int| 0 <= j < i ==> pm[j].1 != other@,
                    decreases m@.len() - i,
                {
                    if m[i].1.same(other) {
                        proof {
                            assert(pm[i as int].1 == other@);
                        }
                        return ExtNat::Nat(1);
                    }
                    i = i + 1;
                }
                ExtNat::Inf
            },
            _ => ExtNat::Nat(1),
        }
    }

    fn objects_distance(&self, other: &Schema) -> (r: ExtNat)
        requires
            self is Obj,
            other is Obj,
            self@ != other@,
        ensures
            r == distance(self@, other@),
        decreases self, other, 0int,
    {
        let (o1, o2) = match (self, other) {
            (Schema::Obj(a), Schema::Obj(b)) => (a, b),
            _ => {
                proof {
                    assert(false);
                }
                return ExtNat::Inf;
            },
        };
        proof {
            lemma_props_model(o1@);
            lemma_props_model(o2@);
        }
        let ghost m1 = props_model(o1@);
        let ghost m2 = props_model(o2@);
        let mut j: usize = 0;
        while j < o2.len()
            invariant
                *self == Schema::Obj(*o1),
                *other == Schema::Obj(*o2),
                self@ != other@,
                j <= o2@.len(),
                m1 == props_model(o1@),
                m2 == props_model(o2@),
                m2.len() == o2@.len(),
                forall|i: int| 0 <= i < o2@.len() ==> #[trigger] m2[i] == (o2@[i].0@, o2@[i].1@),
                forall|i: int| 0 <= i < j ==> has_key(m1, #[trigger] m2[i].0),
            decreases o2@.len() - j,
        {
            if find_key(o1, &o2[j].0).is_none() {
                proof {
                    assert(!has_key(m1, m2[j as int].0));
                    assert(!(forall|k: int| 0 <= k < m2.len() ==> has_key(m1, #[trigger] m2[k].0)));
                }
                return ExtNat::Inf;
            }
            j = j + 1;
        }
        let mut acc = ExtNat::Nat(0);
        let mut i: usize = 0;
        while i < o1.len()
            invariant
                *self == Schema::Obj(*o1),
                *other == Schema::Obj(*o2),
                i <= o1@.len(),
                m1 == props_model(o1@),
                m2 == props_model(o2@),
                m1.len() == o1@.len(),
                m2.len() == o2@.len(),
                forall|k: int| 0 <= k < o1@.len() ==> #[trigger] m1[k] == (o1@[k].0@, o1@[k].1@),
                forall|k: int| 0 <= k < o2@.len() ==> #[trigger] m2[k] == (o2@[k].0@, o2@[k].1@),
                props_distance(m1, m2, 0) == ext_add(acc, props_distance(m1, m2, i as int)),
            decreases o1@.len() - i,
        {
            let d = match find_key(o2, &o1[i].0) {
                Some(j) => {
                    proof {
                        lemma_first_key(m2, m1[i as int].0, j as int);
                        let e1 = o1@[i as int];
                        assert(decreases_to!(*self => self->Obj_0));
                        assert(decreases_to!(o1@ => o1@[i as int]));
                        assert(decreases_to!(e1 => e1.1));
                    }
                    o1[i].1.edit_distance(&o2[j].1)
                },
                None => ExtNat::Nat(1),
            };
            acc = acc.plus(d);
            i = i + 1;
        }
        acc
    }

    /// Deep structural equality.
    pub fn same(&self, other: &Schema) -> (r: bool)
        ensures
            r == (self@ == other@),
        decreases self,
    {
        match (self, other) {
            (Schema::Ground(a), Schema::Ground(b)) => *a == *b,
            (Schema::Arr(a), Schema::Arr(b)) => {
                let r = (**a).same(&**b);
                proof {
                    if !r {
                        assert(self@->Arr_0 != other@->Arr_0);
                    }
                }
                r
            },
            (Schema::Obj(a), Schema::Obj(b)) => {
                if a.len() != b.len() {
                    proof {
                        lemma_props_model(a@);
                        lemma_props_model(b@);
                    }
                    return false;
                }
                let ghost ma = self@->Obj_0;
                let ghost mb = other@->Obj_0;
                proof {
                    lemma_props_model(a@);
                    lemma_props_model(b@);
                }
                let mut i: usize = 0;
                while i < a.len()
                    invariant
                        a@.len() == b@.len(),
                        ma == self@->Obj_0,
                        mb == other@->Obj_0,
                        self == Schema::Obj(*a),
                        other == Schema::Obj(*b),
                        0 <= i <= a@.len(),
                        ma.len() == a@.len(),
                        mb.len() == b@.len(),
                        forall|j: int| 0 <= j < a@.len() ==> ma[j] == (a@[j].0@, a@[j].1@),
                        forall|j: int| 0 <= j < b@.len() ==> mb[j] == (b@[j].0@, b@[j].1@),
                        forall|j: int| 0 <= j < i ==> ma[j] == mb[j],
                    decreases a@.len() - i,
                {
                    if a[i].0 != b[i].0 {
                        proof {
                            assert(ma[i as int].0 != mb[i as int].0);
                        }
                        return false;
                    }
                    if !a[i].1.same(&b[i].1) {
                        proof {
                            assert(ma[i as int].1 != mb[i as int].1);
                        }
                        return false;
                    }
                    i = i + 1;
                }
                proof {
                    assert(ma =~= mb);
                }
                true
            },
            (Schema::True, Schema::True) => true,
            (Schema::False, Schema::False) => true,
            _ => false,
        }
    }
}

impl Schema {
    /// A copy of the whole tree.
    pub fn deep_clone(&self) -> (r: Schema)
        ensures
            r@ == self@,
        decreases self,
    {
        match self {
            Schema::Ground(g) => Schema::Ground(*g),
            Schema::Arr(s) => Schema::Arr(Box::new((**s).deep_clone())),
            Schema::Obj(props) => {
                let mut out: Vec<(String, Schema)> = Vec::new();
                let mut i: usize = 0;
                while i < props.len()
                    invariant
                        self == Schema::Obj(*props),
                        i <= props@.len(),
                        out@.len() == i,
                        forall|j: int| 0 <= j < i ==> out@[j].0@ == props@[j].0@ && out@[j].1@ == props@[j].1@,
                    decreases props@.len() - i,
                {
                    proof {
                        let e = props[i as int];
                        assert(decreases_to!(*self => self->Obj_0));
                        assert(decreases_to!(props => props[i as int]));
                        assert(decreases_to!(e => e.1));
                    }
                    let name = props[i].0.clone();
                    let child = props[i].1.deep_clone();
                    out.push((name, child));
                    i = i + 1;
                }
                proof {
                    lemma_props_model(out@);
                    lemma_props_model(props@);
                    assert(props_model(out@) =~= props_model(props@));
                }
                Schema::Obj(out)
            },
            Schema::True => Schema::True,
            Schema::False => Schema::False,
        }
    }
}

impl Clone for Schema {
    fn clone(&self) -> (r: Schema)
        ensures
            r@ == self@,
    {
        self.deep_clone()
    }
}

impl PartialEq for Schema {
    fn eq(&self, other: &Schema) -> (r: bool) {
        self.same(other)
    }
}

impl vstd::std_specs::cmp::PartialEqSpecImpl for Schema {
    open spec fn obeys_eq_spec() -> bool {
        true
    }

    open spec fn eq_spec(&self, other: &Schema) -> bool {
        self@ == other@
    }
}

} // verus!

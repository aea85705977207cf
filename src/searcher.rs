use vstd::prelude::*;

use crate::ir::{program, IR, IrModel};
use crate::schema::{
    find_key, has_key, key_index, lemma_first_key, lemma_props_model, props_model,
    Ground, Props, Schema, SchemaModel,
};

verus! {

/// Finds a program of instructions `I` that takes values of one `T` to
/// values of another.
pub trait Searcher<T, I, E> {
    /// What the searcher keeps true between searches.
    spec fn inv(&self) -> bool;

    fn find_path(&mut self, lhs: &T, rhs: &T) -> (r: Result<Vec<I>, E>)
        requires
            old(self).inv(),
        ensures
            final(self).inv(),
    ;
}

#[derive(Debug, Clone, Copy, PartialEq, Eq, Structural)]
pub enum SearchErr {
    NoPath,
}

/// Whether `j` is the first position whose schema is `Ground(g)`.
pub open spec fn is_first_ground(m: Props, g: Ground, j: int) -> bool {
    &&& 0 <= j < m.len()
    &&& m[j].1 == SchemaModel::Ground(g)
    &&& forall|i: int| 0 <= i < j ==> m[i].1 != SchemaModel::Ground(g)
}

/// The program that takes values of `l` to values of `r`, or `None` where the
/// rules relate no such pair.
pub open spec fn search(l: SchemaModel, r: SchemaModel) -> Option<Seq<IrModel>>
    decreases l, r, 0int,
{
    match (l, r) {
        (SchemaModel::Ground(g1), SchemaModel::Ground(g2)) => if g1 == g2 {
            Some(seq![IrModel::Copy])
        } else {
            Some(seq![IrModel::G2G(g1, g2)])
        },
        (SchemaModel::Ground(_), SchemaModel::Arr(_)) => None,
        (SchemaModel::Ground(_), SchemaModel::Obj(m)) => if m.len() == 1 {
            match search(l, m[0].1) {
                Some(p) => Some(p.push(IrModel::Abs(m[0].0))),
                None => None,
            }
        } else {
            None
        },
        (SchemaModel::Arr(_), SchemaModel::Ground(_)) => None,
        (SchemaModel::Arr(a), SchemaModel::Arr(b)) => match search(*a, *b) {
            Some(p) => Some(seq![IrModel::PushArr] + p + seq![IrModel::PopArr]),
            None => None,
        },
        (SchemaModel::Arr(_), SchemaModel::Obj(_)) => None,
        (SchemaModel::Obj(m), SchemaModel::Ground(g)) => if exists|j: int|
            is_first_ground(m, g, j) {
            let j = choose|j: int| is_first_ground(m, g, j);
            Some(seq![IrModel::Extr(m[j].0)])
        } else {
            None
        },
        (SchemaModel::Obj(_), SchemaModel::Arr(_)) => None,
        (SchemaModel::Obj(m1), SchemaModel::Obj(m2)) => if forall|j: int|
            0 <= j < m2.len() ==> has_key(m1, #[trigger] m2[j].0) {
            match search_props(m1, m2, 0) {
                Some(p) => Some(seq![IrModel::PushObj] + p + seq![IrModel::PopObj]),
                None => None,
            }
        } else {
            None
        },
        (SchemaModel::True, _) => Some(Seq::empty()),
        (_, SchemaModel::True) => Some(Seq::empty()),
        _ => None,
    }
}

/// The part of an object-to-object program for the source properties from
/// position `i` on: each one that the target names is converted under its
/// key; the others are dropped.
pub open spec fn search_props(m1: Props, m2: Props, i: int) -> Option<Seq<IrModel>>
    decreases m1, m2, m1.len() - i,
{
    if i < 0 || i >= m1.len() {
        Some(Seq::empty())
    } else {
        let rest = search_props(m1, m2, i + 1);
        if has_key(m2, m1[i].0) {
            let j = key_index(m2, m1[i].0);
            if 0 <= j < m2.len() {
                match (search(m1[i].1, m2[j].1), rest) {
                    (Some(p), Some(q)) => Some(
                        seq![IrModel::PushKey(m1[i].0)] + p + seq![IrModel::PopKey] + q,
                    ),
                    _ => None,
                }
            } else {
                None
            }
        } else {
            rest
        }
    }
}

/// A scalar kind is related to itself by a single copy.
pub proof fn lemma_ground_identity(g: Ground)
    ensures
        search(SchemaModel::Ground(g), SchemaModel::Ground(g)) == Some(seq![IrModel::Copy]),
{
}

/// Two different scalar kinds are related by exactly one conversion.
pub proof fn lemma_ground_coercion(g1: Ground, g2: Ground)
    requires
        g1 != g2,
    ensures
        search(SchemaModel::Ground(g1), SchemaModel::Ground(g2)) == Some(
            seq![IrModel::G2G(g1, g2)],
        ),
{
}

/// A scalar goes into an object of one property of another scalar kind by
/// its conversion followed by an abstraction under that property's name.
pub proof fn lemma_abstraction(g1: Ground, g2: Ground, k: Seq<char>)
    requires
        g1 != g2,
    ensures
        search(
            SchemaModel::Ground(g1),
            SchemaModel::Obj(seq![(k, SchemaModel::Ground(g2))]),
        ) == Some(seq![IrModel::G2G(g1, g2), IrModel::Abs(k)]),
{
    let m = seq![(k, SchemaModel::Ground(g2))];
    assert(m[0].1 == SchemaModel::Ground(g2));
    assert(search(SchemaModel::Ground(g1), m[0].1) == Some(seq![IrModel::G2G(g1, g2)]));
    assert(seq![IrModel::G2G(g1, g2)].push(IrModel::Abs(k)) =~= seq![
        IrModel::G2G(g1, g2),
        IrModel::Abs(k),
    ]);
}

/// The program that a search returned, or `None` for a failure.
pub open spec fn outcome(r: Result<Vec<IR>, SearchErr>) -> Option<Seq<IrModel>> {
    match r {
        Ok(p) => Some(program(p@)),
        Err(_) => None,
    }
}

/// A searcher over schemas. It remembers each pair of schemas that it has
/// related, with the program found.
pub struct SchemaSearcher {
    schema_rels: Vec<(Schema, Schema, Vec<IR>)>,
}

impl Searcher<Schema, IR, SearchErr> for SchemaSearcher {
    /// Each remembered program is the one the rules give for its pair.
    closed spec fn inv(&self) -> bool {
        forall|k: int|
            0 <= k < self.schema_rels@.len() ==> search(
                #[trigger] self.schema_rels@[k].0@,
                self.schema_rels@[k].1@,
            ) == Some(program(self.schema_rels@[k].2@))
    }

    fn find_path(&mut self, lhs: &Schema, rhs: &Schema) -> (r: Result<Vec<IR>, SearchErr>)
        ensures
            outcome(r) == search(lhs@, rhs@),
    {
        self.search(lhs, rhs)
    }
}

proof fn lemma_first_ground(m: Props, g: Ground, j: int)
    requires
        is_first_ground(m, g, j),
    ensures
        (choose|i: int| is_first_ground(m, g, i)) == j,
{
    let c = choose|i: int| is_first_ground(m, g, i);
    if c < j {
        assert(m[c].1 != SchemaModel::Ground(g));
    } else if c > j {
        assert(m[j].1 != SchemaModel::Ground(g));
    }
}

/// A copy of a program.
fn copy_path(p: &Vec<IR>) -> (r: Vec<IR>)
    ensures
        program(r@) == program(p@),
{
    let mut r: Vec<IR> = Vec::new();
    let mut i: usize = 0;
    while i < p.len()
        invariant
            i <= p@.len(),
            r@ == p@.take(i as int),
        decreases p@.len() - i,
    {
        r.push(p[i].clone());
        proof {
            assert(r@ =~= p@.take(i + 1));
        }
        i = i + 1;
    }
    proof {
        assert(p@.take(i as int) =~= p@);
    }
    r
}

impl SchemaSearcher {
    pub fn new() -> (r: SchemaSearcher)
        ensures
            r.inv(),
    {
        SchemaSearcher { schema_rels: Vec::new() }
    }

    /// The program from `lhs` to `rhs`: the remembered one where the pair was
    /// related before, else one found by the rules, which is then remembered.
    fn search(&mut self, lhs: &Schema, rhs: &Schema) -> (r: Result<Vec<IR>, SearchErr>)
        requires
            old(self).inv(),
        ensures
            final(self).inv(),
            outcome(r) == search(lhs@, rhs@),
        decreases lhs, rhs, 2int,
    {
        let mut k: usize = 0;
        while k < self.schema_rels.len()
            invariant
                self.inv(),
                k <= self.schema_rels@.len(),
            decreases self.schema_rels@.len() - k,
        {
            if self.schema_rels[k].0.same(lhs) && self.schema_rels[k].1.same(rhs) {
                return Ok(copy_path(&self.schema_rels[k].2));
            }
            k = k + 1;
        }
        let r = self.relate(lhs, rhs);
        match &r {
            Ok(p) => {
                let entry = (lhs.deep_clone(), rhs.deep_clone(), copy_path(p));
                self.schema_rels.push(entry);
            },
            Err(_) => {},
        }
        r
    }

    /// One application of the rules, with `search` for the parts.
    fn relate(&mut self, lhs: &Schema, rhs: &Schema) -> (r: Result<Vec<IR>, SearchErr>)
        requires
            old(self).inv(),
        ensures
            final(self).inv(),
            outcome(r) == search(lhs@, rhs@),
        decreases lhs, rhs, 1int,
    {
        match (lhs, rhs) {
            (Schema::Ground(g1), Schema::Ground(g2)) => {
                let path = if *g1 == *g2 {
                    vec![IR::Copy]
                } else {
                    vec![IR::G2G(*g1, *g2)]
                };
                proof {
                    assert(program(path@) =~= search(lhs@, rhs@)->0);
                }
                Ok(path)
            },
            (Schema::Ground(_), Schema::Arr(_)) => Err(SearchErr::NoPath),
            (Schema::Ground(_), Schema::Obj(o)) => {
                proof {
                    lemma_props_model(o@);
                }
                if o.len() != 1 {
                    return Err(SearchErr::NoPath);
                }
                proof {
                    let e = o@[0];
                    assert(decreases_to!(*rhs => rhs->Obj_0));
                    assert(decreases_to!(o@ => o@[0]));
                    assert(decreases_to!(e => e.1));
                }
                match self.search(lhs, &o[0].1) {
                    Ok(path) => {
                        let mut path = path;
                        let ghost before = path@;
                        path.push(IR::Abs(o[0].0.clone()));
                        proof {
                            assert(program(path@) =~= program(before).push(IrModel::Abs(o@[0].0@)));
                        }
                        Ok(path)
                    },
                    Err(e) => Err(e),
                }
            },
            (Schema::Arr(_), Schema::Ground(_)) => Err(SearchErr::NoPath),
            (Schema::Arr(s1), Schema::Arr(s2)) => {
                match self.search(&**s1, &**s2) {
                    Ok(inner) => {
                        let mut inner = inner;
                        let ghost body = program(inner@);
                        let mut path = vec![IR::PushArr];
                        path.append(&mut inner);
                        path.push(IR::PopArr);
                        proof {
                            assert(program(path@) =~= seq![IrModel::PushArr] + body + seq![IrModel::PopArr]);
                        }
                        Ok(path)
                    },
                    Err(e) => Err(e),
                }
            },
            (Schema::Arr(_), Schema::Obj(_)) => Err(SearchErr::NoPath),
            (Schema::Obj(o), Schema::Ground(g1)) => {
                proof {
                    lemma_props_model(o@);
                }
                let ghost m = props_model(o@);
                let mut k: usize = 0;
                while k < o.len()
                    invariant
                        self.inv(),
                        k <= o@.len(),
                        m == props_model(o@),
                        m.len() == o@.len(),
                        forall|j: int| 0 <= j < o@.len() ==> #[trigger] m[j] == (o@[j].0@, o@[j].1@),
                        forall|j: int| 0 <= j < k ==> m[j].1 != SchemaModel::Ground(*g1),
                        lhs@ == SchemaModel::Obj(m),
                        rhs@ == SchemaModel::Ground(*g1),
                    decreases o@.len() - k,
                {
                    if let Schema::Ground(g2) = &o[k].1 {
                        if *g1 == *g2 {
                            let path = vec![IR::Extr(o[k].0.clone())];
                            proof {
                                assert(is_first_ground(m, *g1, k as int));
                                lemma_first_ground(m, *g1, k as int);
                                assert(program(path@) =~= seq![IrModel::Extr(m[k as int].0)]);
                            }
                            return Ok(path);
                        }
                    }
                    k = k + 1;
                }
                proof {
                    assert forall|j: int| !is_first_ground(m, *g1, j) by {
                        if 0 <= j < m.len() {
                            assert(m[j].1 != SchemaModel::Ground(*g1));
                        }
                    }
                }
                Err(SearchErr::NoPath)
            },
            (Schema::Obj(_), Schema::Arr(_)) => Err(SearchErr::NoPath),
            (Schema::Obj(_), Schema::Obj(_)) => self.relate_objects(lhs, rhs),
            (Schema::True, _) => Ok(Vec::new()),
            (_, Schema::True) => Ok(Vec::new()),
            _ => Err(SearchErr::NoPath),
        }
    }

    /// The rule for two objects: every target property must be a source
    /// property; the source properties are converted in their order, and
    /// those that the target lacks are dropped.
    fn relate_objects(&mut self, lhs: &Schema, rhs: &Schema) -> (r: Result<Vec<IR>, SearchErr>)
        requires
            old(self).inv(),
            lhs is Obj,
            rhs is Obj,
        ensures
            final(self).inv(),
            outcome(r) == search(lhs@, rhs@),
        decreases lhs, rhs, 0int,
    {
        let o1 = match lhs {
            Schema::Obj(o) => o,
            _ => {
                proof {
                    assert(false);
                }
                return Err(SearchErr::NoPath);
            },
        };
        let o2 = match rhs {
            Schema::Obj(o) => o,
            _ => {
                proof {
                    assert(false);
                }
                return Err(SearchErr::NoPath);
            },
        };
        proof {
            lemma_props_model(o1@);
            lemma_props_model(o2@);
        }
        let ghost m1 = props_model(o1@);
        let ghost m2 = props_model(o2@);
        let mut j: usize = 0;
        while j < o2.len()
            invariant
                self.inv(),
                *lhs == Schema::Obj(*o1),
                *rhs == Schema::Obj(*o2),
                j <= o2@.len(),
                m1 == props_model(o1@),
                m2 == props_model(o2@),
                m2.len() == o2@.len(),
                forall|i: int| 0 <= i < o2@.len() ==> #[trigger] m2[i] == (o2@[i].0@, o2@[i].1@),
                forall|i: int| 0 <= i < j ==> has_key(m1, #[trigger] m2[i].0),
            decreases o2@.len() - j,
        {
            if find_key(o1, &o2[j].0).is_none() {
                proof {
                    assert(!has_key(m1, m2[j as int].0));
                    assert(lhs@ == SchemaModel::Obj(m1));
                    assert(rhs@ == SchemaModel::Obj(m2));
                    assert(!(forall|k: int| 0 <= k < m2.len() ==> has_key(m1, #[trigger] m2[k].0)));
                }
                return Err(SearchErr::NoPath);
            }
            j = j + 1;
        }
        let mut path = vec![IR::PushObj];
        let ghost mut acc: Seq<IrModel> = Seq::empty();
        let mut i: usize = 0;
        proof {
            assert(program(path@) =~= seq![IrModel::PushObj] + acc);
        }
        while i < o1.len()
            invariant
                self.inv(),
                *lhs == Schema::Obj(*o1),
                *rhs == Schema::Obj(*o2),
                i <= o1@.len(),
                m1 == props_model(o1@),
                m2 == props_model(o2@),
                m1.len() == o1@.len(),
                m2.len() == o2@.len(),
                forall|k: int| 0 <= k < o1@.len() ==> #[trigger] m1[k] == (o1@[k].0@, o1@[k].1@),
                forall|k: int| 0 <= k < o2@.len() ==> #[trigger] m2[k] == (o2@[k].0@, o2@[k].1@),
                program(path@) == seq![IrModel::PushObj] + acc,
                search_props(m1, m2, 0) == match search_props(m1, m2, i as int) {
                    Some(q) => Some(acc + q),
                    None => None,
                },
            decreases o1@.len() - i,
        {
            match find_key(o2, &o1[i].0) {
                Some(j) => {
                    proof {
                        lemma_first_key(m2, m1[i as int].0, j as int);
                        let e1 = o1@[i as int];
                        assert(decreases_to!(*lhs => lhs->Obj_0));
                        assert(decreases_to!(o1@ => o1@[i as int]));
                        assert(decreases_to!(e1 => e1.1));
                    }
                    match self.search(&o1[i].1, &o2[j].1) {
                        Ok(key_conv) => {
                            let mut key_conv = key_conv;
                            let ghost p = program(key_conv@);
                            let ghost before = program(path@);
                            path.push(IR::PushKey(o1[i].0.clone()));
                            path.append(&mut key_conv);
                            path.push(IR::PopKey);
                            let ghost seg = seq![IrModel::PushKey(m1[i as int].0)] + p + seq![IrModel::PopKey];
                            proof {
                                assert(program(path@) =~= before + seg);
                                match search_props(m1, m2, i + 1) {
                                    Some(q) => {
                                        assert(acc + (seg + q) =~= (acc + seg) + q);
                                    },
                                    None => {},
                                }
                                acc = acc + seg;
                                assert(program(path@) =~= seq![IrModel::PushObj] + acc);
                            }
                        },
                        Err(e) => {
                            return Err(e);
                        },
                    }
                },
                None => {},
            }
            i = i + 1;
        }
        path.push(IR::PopObj);
        proof {
            assert(program(path@) =~= seq![IrModel::PushObj] + acc + seq![IrModel::PopObj]);
            assert(acc + Seq::<IrModel>::empty() =~= acc);
        }
        Ok(path)
    }
}

} // verus!

use vstd::prelude::*;

verus! {

/// A parsed JSON document, as a tagged tree. Numbers keep their source text;
/// the entries of an object keep their order.
#[derive(Debug, PartialEq)]
pub enum Json {
    Null,
    Bool(bool),
    Number(String),
    String(String),
    Array(Vec<Json>),
    Object(Vec<(String, Json)>),
}

/// Whether `j` is the first entry of the object named `k`.
pub open spec fn is_first_entry(obj: Seq<(String, Json)>, k: Seq<char>, j: int) -> bool {
    &&& 0 <= j < obj.len()
    &&& obj[j].0@ == k
    &&& forall|i: int| 0 <= i < j ==> obj[i].0@ != k
}

pub open spec fn has_entry(obj: Seq<(String, Json)>, k: Seq<char>) -> bool {
    exists|j: int| is_first_entry(obj, k, j)
}

/// The position of the first entry named `k`, where there is one.
pub open spec fn entry_index(obj: Seq<(String, Json)>, k: Seq<char>) -> int {
    choose|j: int| is_first_entry(obj, k, j)
}

pub proof fn lemma_first_entry(obj: Seq<(String, Json)>, k: Seq<char>, j: int)
    requires
        is_first_entry(obj, k, j),
    ensures
        has_entry(obj, k),
        entry_index(obj, k) == j,
{
    let c = entry_index(obj, k);
    if c < j {
        assert(obj[c].0@ != k);
    } else if c > j {
        assert(obj[j].0@ != k);
    }
}

/// The value of the first entry named `k`.
pub fn get<'a>(obj: &'a Vec<(String, Json)>, k: &str) -> (r: Option<&'a Json>)
    ensures
        match r {
            Some(v) => has_entry(obj@, k@) && *v == obj@[entry_index(obj@, k@)].1,
            None => !has_entry(obj@, k@),
        },
{
    let key = String::from_str(k);
    let mut i: usize = 0;
    while i < obj.len()
        invariant
            i <= obj@.len(),
            key@ == k@,
            forall|j: int| 0 <= j < i ==> obj@[j].0@ != k@,
        decreases obj@.len() - i,
    {
        if obj[i].0 == key {
            proof {
                lemma_first_entry(obj@, k@, i as int);
            }
            return Some(&obj[i].1);
        }
        i = i + 1;
    }
    proof {
        assert forall|j: int| !is_first_entry(obj@, k@, j) by {
            if 0 <= j < obj@.len() {
                assert(obj@[j].0@ != k@);
            }
        }
    }
    None
}

} // verus!

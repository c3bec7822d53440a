use vstd::prelude::*;
use rand::rngs::StdRng;
use crate::random::{is_alphanumeric, random_id};

verus! {

/// Identifier pools, generated once and shared by every task of a run.
pub struct EntityPools {
    pub frameworks: Vec<String>,
    pub slaves: Vec<String>,
    pub task_types: Vec<String>,
}

/// Length of a generated identifier.
pub const ID_LEN: usize = 24;

pub open spec fn digit_char(d: nat) -> char {
    if d == 0 { '0' } else if d == 1 { '1' } else if d == 2 { '2' } else if d == 3 { '3' }
    else if d == 4 { '4' } else if d == 5 { '5' } else if d == 6 { '6' } else if d == 7 { '7' }
    else if d == 8 { '8' } else { '9' }
}

/// The decimal digits of `n`, without leading zeros.
pub open spec fn decimal(n: nat) -> Seq<char>
    decreases n,
{
    if n < 10 {
        seq![digit_char(n)]
    } else {
        decimal(n / 10).push(digit_char(n % 10))
    }
}

/// The name of task type `i`.
pub open spec fn task_type_name(i: nat) -> Seq<char> {
    "TASK_TYPE_"@ + decimal(i)
}

/// A pool of `n` random identifiers of `ID_LEN` letters and digits.
pub open spec fn is_id_pool(s: Seq<String>, n: nat) -> bool {
    &&& s.len() == n
    &&& forall|i: int| 0 <= i < n ==> (#[trigger] s[i])@.len() == ID_LEN
    &&& forall|i: int, j: int| 0 <= i < n && 0 <= j < ID_LEN ==> is_alphanumeric(#[trigger] s[i]@[j])
}

fn digit_text(d: u64) -> (r: &'static str)
    requires
        d < 10,
    ensures
        r@ == seq![digit_char(d as nat)],
{
    proof {
        reveal_strlit("0");
        reveal_strlit("1");
        reveal_strlit("2");
        reveal_strlit("3");
        reveal_strlit("4");
        reveal_strlit("5");
        reveal_strlit("6");
        reveal_strlit("7");
        reveal_strlit("8");
        reveal_strlit("9");
    }
    if d == 0 { "0" } else if d == 1 { "1" } else if d == 2 { "2" } else if d == 3 { "3" }
    else if d == 4 { "4" } else if d == 5 { "5" } else if d == 6 { "6" } else if d == 7 { "7" }
    else if d == 8 { "8" } else { "9" }
}

/// The decimal text of `n`.
pub fn decimal_text(n: u64) -> (r: String)
    ensures
        r@ == decimal(n as nat),
    decreases n,
{
    if n < 10 {
        String::from_str(digit_text(n))
    } else {
        let mut r = decimal_text(n / 10);
        r.append(digit_text(n % 10));
        r
    }
}

/// The name of task type `i`: `TASK_TYPE_` followed by `i` in decimal.
pub fn task_type_label(i: u64) -> (r: String)
    ensures
        r@ == task_type_name(i as nat),
{
    let mut r = String::from_str("TASK_TYPE_");
    let d = decimal_text(i);
    r.append(d.as_str());
    r
}

fn id_pool(rng: &mut StdRng, n: usize) -> (r: Vec<String>)
    ensures
        is_id_pool(r@, n as nat),
{
    let mut r: Vec<String> = Vec::new();
    let mut k: usize = 0;
    while k < n
        invariant
            k <= n,
            is_id_pool(r@, k as nat),
        decreases n - k,
    {
        let id = random_id(rng, ID_LEN);
        r.push(id);
        k = k + 1;
    }
    r
}

impl EntityPools {
    /// Pools of `frameworks` and `slaves` random identifiers, and the task
    /// types `TASK_TYPE_0` up to `TASK_TYPE_<task_types - 1>`.
    pub fn generate(rng: &mut StdRng, frameworks: usize, slaves: usize, task_types: usize) -> (r: EntityPools)
        ensures
            is_id_pool(r.frameworks@, frameworks as nat),
            is_id_pool(r.slaves@, slaves as nat),
            r.task_types@.len() == task_types,
            forall|i: int| 0 <= i < task_types ==> (#[trigger] r.task_types@[i])@ == task_type_name(i as nat),
    {
        let fw = id_pool(rng, frameworks);
        let sl = id_pool(rng, slaves);
        let mut types: Vec<String> = Vec::new();
        let mut k: usize = 0;
        while k < task_types
            invariant
                k <= task_types,
                types@.len() == k,
                forall|i: int| 0 <= i < k ==> (#[trigger] types@[i])@ == task_type_name(i as nat),
            decreases task_types - k,
        {
            types.push(task_type_label(k as u64));
            k = k + 1;
        }
        EntityPools { frameworks: fw, slaves: sl, task_types: types }
    }
}

} // verus!

//! The circuit's static description, as the circuit compiler produces it.
use vstd::prelude::*;

verus! {

/// What a verifier needs to know of a circuit beyond its key.
pub struct Protocol {
    /// The domain has size `2^k`.
    pub k: u32,
    /// The number of public inputs.
    pub num_statement: usize,
    /// The number of fixed commitments in the verification key.
    pub num_preprocessed: usize,
    /// The indices of the Lagrange basis polynomials that the relations use.
    pub relation_langranges: Vec<i32>,
}

/// `[0, 1, ..., m - 1]`.
pub open spec fn index_range(m: int) -> Seq<i32>
    decreases m,
{
    if m <= 0 {
        Seq::empty()
    } else {
        index_range(m - 1).push((m - 1) as i32)
    }
}

/// The largest length among `statements`, `0` for none.
pub open spec fn max_len<T>(statements: Seq<Vec<T>>, i: int) -> int
    decreases i,
{
    if i <= 0 {
        0
    } else {
        let m = max_len(statements, i - 1);
        let l = statements[i - 1].len() as int;
        if l > m {
            l
        } else {
            m
        }
    }
}

/// The Lagrange indices that a verifier evaluates: those of the relations,
/// then one per public input of the longest statement.
pub fn langranges<T>(protocol: &Protocol, statements: &[Vec<T>]) -> (r: Vec<i32>)
    requires
        forall|j: int| 0 <= j < statements@.len() ==> (#[trigger] statements@[j]).len() <= i32::MAX,
    ensures
        r@ == protocol.relation_langranges@ + index_range(max_len(statements@, statements@.len() as int)),
{
    let mut m: usize = 0;
    let mut i: usize = 0;
    while i < statements.len()
        invariant
            i <= statements@.len(),
            m as int == max_len(statements@, i as int),
            m <= i32::MAX,
            forall|j: int| 0 <= j < statements@.len() ==> (#[trigger] statements@[j]).len() <= i32::MAX,
        decreases statements@.len() - i,
    {
        let l = statements[i].len();
        if l > m {
            m = l;
        }
        i = i + 1;
    }
    let mut r: Vec<i32> = Vec::new();
    let mut j: usize = 0;
    while j < protocol.relation_langranges.len()
        invariant
            j <= protocol.relation_langranges.len(),
            r@ == protocol.relation_langranges@.subrange(0, j as int),
        decreases protocol.relation_langranges.len() - j,
    {
        r.push(protocol.relation_langranges[j]);
        j = j + 1;
        assert(r@ =~= protocol.relation_langranges@.subrange(0, j as int));
    }
    let ghost base = r@;
    assert(base =~= protocol.relation_langranges@);
    let mut x: i32 = 0;
    while (x as usize) < m
        invariant
            0 <= x <= m <= i32::MAX,
            r@ == base + index_range(x as int),
        decreases m - x as usize,
    {
        r.push(x);
        x = x + 1;
        assert(r@ =~= base + index_range(x as int));
    }
    r
}

} // verus!

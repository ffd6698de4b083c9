//! Joining byte strings: regrouping a chain of appends.

use vstd::prelude::*;

verus! {

/// Appending 2 pieces one by one is appending their join.
pub proof fn cat2(o: Seq<u8>, p1: Seq<u8>, p2: Seq<u8>)
    ensures
        o + p1 + p2 == o + (p1 + p2),
{
    assert(o + p1 + p2 =~= o + (p1 + p2));
}

/// Appending 3 pieces one by one is appending their join.
pub proof fn cat3(o: Seq<u8>, p1: Seq<u8>, p2: Seq<u8>, p3: Seq<u8>)
    ensures
        o + p1 + p2 + p3 == o + (p1 + p2 + p3),
{
    assert(o + p1 + p2 + p3 =~= o + (p1 + p2 + p3));
}

/// Appending 4 pieces one by one is appending their join.
pub proof fn cat4(o: Seq<u8>, p1: Seq<u8>, p2: Seq<u8>, p3: Seq<u8>, p4: Seq<u8>)
    ensures
        o + p1 + p2 + p3 + p4 == o + (p1 + p2 + p3 + p4),
{
    assert(o + p1 + p2 + p3 + p4 =~= o + (p1 + p2 + p3 + p4));
}

/// Appending 5 pieces one by one is appending their join.
pub proof fn cat5(o: Seq<u8>, p1: Seq<u8>, p2: Seq<u8>, p3: Seq<u8>, p4: Seq<u8>, p5: Seq<u8>)
    ensures
        o + p1 + p2 + p3 + p4 + p5 == o + (p1 + p2 + p3 + p4 + p5),
{
    assert(o + p1 + p2 + p3 + p4 + p5 =~= o + (p1 + p2 + p3 + p4 + p5));
}

/// Appending 6 pieces one by one is appending their join.
pub proof fn cat6(o: Seq<u8>, p1: Seq<u8>, p2: Seq<u8>, p3: Seq<u8>, p4: Seq<u8>, p5: Seq<u8>, p6: Seq<u8>)
    ensures
        o + p1 + p2 + p3 + p4 + p5 + p6 == o + (p1 + p2 + p3 + p4 + p5 + p6),
{
    assert(o + p1 + p2 + p3 + p4 + p5 + p6 =~= o + (p1 + p2 + p3 + p4 + p5 + p6));
}

/// Appending 7 pieces one by one is appending their join.
pub proof fn cat7(o: Seq<u8>, p1: Seq<u8>, p2: Seq<u8>, p3: Seq<u8>, p4: Seq<u8>, p5: Seq<u8>, p6: Seq<u8>, p7: Seq<u8>)
    ensures
        o + p1 + p2 + p3 + p4 + p5 + p6 + p7 == o + (p1 + p2 + p3 + p4 + p5 + p6 + p7),
{
    assert(o + p1 + p2 + p3 + p4 + p5 + p6 + p7 =~= o + (p1 + p2 + p3 + p4 + p5 + p6 + p7));
}

/// Appending 8 pieces one by one is appending their join.
pub proof fn cat8(o: Seq<u8>, p1: Seq<u8>, p2: Seq<u8>, p3: Seq<u8>, p4: Seq<u8>, p5: Seq<u8>, p6: Seq<u8>, p7: Seq<u8>, p8: Seq<u8>)
    ensures
        o + p1 + p2 + p3 + p4 + p5 + p6 + p7 + p8 == o + (p1 + p2 + p3 + p4 + p5 + p6 + p7 + p8),
{
    assert(o + p1 + p2 + p3 + p4 + p5 + p6 + p7 + p8 =~= o + (p1 + p2 + p3 + p4 + p5 + p6 + p7 + p8));
}

/// Appending 9 pieces one by one is appending their join.
pub proof fn cat9(o: Seq<u8>, p1: Seq<u8>, p2: Seq<u8>, p3: Seq<u8>, p4: Seq<u8>, p5: Seq<u8>, p6: Seq<u8>, p7: Seq<u8>, p8: Seq<u8>, p9: Seq<u8>)
    ensures
        o + p1 + p2 + p3 + p4 + p5 + p6 + p7 + p8 + p9 == o + (p1 + p2 + p3 + p4 + p5 + p6 + p7 + p8 + p9),
{
    assert(o + p1 + p2 + p3 + p4 + p5 + p6 + p7 + p8 + p9 =~= o + (p1 + p2 + p3 + p4 + p5 + p6 + p7 + p8 + p9));
}

/// Appends one byte.
pub fn put_byte(out: &mut Vec<u8>, c: u8)
    ensures
        final(out)@ == old(out)@ + seq![c],
{
    out.push(c);
    assert(final(out)@ =~= old(out)@ + seq![c]);
}

} // verus!

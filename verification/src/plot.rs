use vstd::prelude::*;

verus! {

/// How a drawable point enters the path of a curve: it starts a new piece, or it
/// continues the piece from the point before it.
#[derive(Clone, Copy, Debug, PartialEq, Eq, Structural)]
pub enum PathCommand {
    MoveTo(usize),
    LineTo(usize),
}

/// The path commands for points of which `drawable[i]` tells whether point `i` can be
/// drawn: each drawable point, in order, continues the path when the point before it was
/// drawable too, and starts a new piece otherwise; other points break the path.
pub open spec fn spec_path_commands(drawable: Seq<bool>) -> Seq<PathCommand>
    decreases drawable.len(),
{
    if drawable.len() == 0 {
        seq![]
    } else {
        let i: int = drawable.len() - 1;
        let prev = spec_path_commands(drawable.drop_last());
        if drawable[i] {
            if i > 0 && drawable[i - 1] {
                prev.push(PathCommand::LineTo(i as usize))
            } else {
                prev.push(PathCommand::MoveTo(i as usize))
            }
        } else {
            prev
        }
    }
}

/// Split a curve into connected pieces.
pub fn path_commands(drawable: &Vec<bool>) -> (r: Vec<PathCommand>)
    ensures
        r@ == spec_path_commands(drawable@),
{
    let mut commands: Vec<PathCommand> = Vec::new();
    let mut in_path = false;
    let mut i: usize = 0;
    while i < drawable.len()
        invariant
            i <= drawable@.len(),
            commands@ == spec_path_commands(drawable@.take(i as int)),
            in_path == (i > 0 && drawable@[i - 1]),
        decreases drawable.len() - i,
    {
        proof {
            assert(drawable@.take(i + 1).drop_last() =~= drawable@.take(i as int));
        }
        if drawable[i] {
            if in_path {
                commands.push(PathCommand::LineTo(i));
            } else {
                commands.push(PathCommand::MoveTo(i));
                in_path = true;
            }
        } else {
            in_path = false;
        }
        i += 1;
    }
    proof {
        assert(drawable@.take(drawable@.len() as int) =~= drawable@);
    }
    commands
}

/// The indices `i` for which points `i` and `i + 1` are both valid, in order: the
/// segments that join consecutive valid points.
pub open spec fn spec_linked_pairs(valid: Seq<bool>, upto: int) -> Seq<usize>
    decreases upto,
{
    if upto <= 0 {
        seq![]
    } else {
        let prev = spec_linked_pairs(valid, upto - 1);
        let i: int = upto - 1;
        if i + 1 < valid.len() && valid[i] && valid[i + 1] {
            prev.push(i as usize)
        } else {
            prev
        }
    }
}

/// The segments between consecutive valid points.
pub fn linked_pairs(valid: &Vec<bool>) -> (r: Vec<usize>)
    ensures
        r@ == spec_linked_pairs(valid@, valid@.len() as int),
{
    let mut pairs: Vec<usize> = Vec::new();
    let mut i: usize = 0;
    while i < valid.len()
        invariant
            i <= valid@.len(),
            pairs@ == spec_linked_pairs(valid@, i as int),
        decreases valid.len() - i,
    {
        if i + 1 < valid.len() && valid[i] && valid[i + 1] {
            pairs.push(i);
        }
        i += 1;
    }
    pairs
}

/// The point a path command is about.
pub open spec fn command_index(c: PathCommand) -> int {
    match c {
        PathCommand::MoveTo(i) => i as int,
        PathCommand::LineTo(i) => i as int,
    }
}

proof fn lemma_path_commands(d: Seq<bool>)
    requires
        d.len() <= usize::MAX,
    ensures
        ({
            let r = spec_path_commands(d);
            &&& forall|k: int|
                0 <= k < r.len() ==> 0 <= command_index(#[trigger] r[k]) < d.len() && d[command_index(
                    r[k],
                )] && ((r[k] is LineTo) == (command_index(r[k]) > 0 && d[command_index(r[k]) - 1]))
            &&& forall|k1: int, k2: int|
                0 <= k1 < k2 < r.len() ==> command_index(#[trigger] r[k1]) < command_index(
                    #[trigger] r[k2],
                )
            &&& forall|i: int|
                0 <= i < d.len() && #[trigger] d[i] ==> exists|k: int|
                    0 <= k < r.len() && command_index(#[trigger] r[k]) == i
        }),
    decreases d.len(),
{
    if d.len() > 0 {
        let p = d.drop_last();
        lemma_path_commands(p);
        let prev = spec_path_commands(p);
        let r = spec_path_commands(d);
        let n: int = d.len() - 1;
        assert forall|k: int| 0 <= k < prev.len() implies command_index(#[trigger] prev[k]) < n by {}
        if d[n] {
            assert(r.len() == prev.len() + 1);
            assert(command_index(r[prev.len() as int]) == n);
            assert forall|k: int| 0 <= k < prev.len() implies #[trigger] r[k] == prev[k] by {}
            assert forall|i: int| 0 <= i < d.len() && #[trigger] d[i] implies exists|k: int|
                0 <= k < r.len() && command_index(#[trigger] r[k]) == i by {
                if i == n {
                    assert(command_index(r[prev.len() as int]) == i);
                } else {
                    assert(p[i] == d[i]);
                    let k = choose|k: int| 0 <= k < prev.len() && command_index(#[trigger] prev[k]) == i;
                    assert(r[k] == prev[k]);
                }
            }
            assert forall|k: int| 0 <= k < r.len() implies 0 <= command_index(#[trigger] r[k])
                < d.len() && d[command_index(r[k])] && ((r[k] is LineTo) == (command_index(r[k])
                > 0 && d[command_index(r[k]) - 1])) by {
                if k < prev.len() {
                    assert(r[k] == prev[k]);
                    let j = command_index(prev[k]);
                    assert(p[j] == d[j]);
                    if j > 0 {
                        assert(p[j - 1] == d[j - 1]);
                    }
                }
            }
        } else {
            assert(r == prev);
            assert forall|i: int| 0 <= i < d.len() && #[trigger] d[i] implies exists|k: int|
                0 <= k < r.len() && command_index(#[trigger] r[k]) == i by {
                assert(i != n);
                assert(p[i] == d[i]);
            }
            assert forall|k: int| 0 <= k < r.len() implies 0 <= command_index(#[trigger] r[k])
                < d.len() && d[command_index(r[k])] && ((r[k] is LineTo) == (command_index(r[k])
                > 0 && d[command_index(r[k]) - 1])) by {
                let j = command_index(prev[k]);
                assert(p[j] == d[j]);
                if j > 0 {
                    assert(p[j - 1] == d[j - 1]);
                }
            }
        }
    }
}

/// The path of a curve has one command for each drawable point, in increasing order of
/// the points, and no other: a point continues the path (`LineTo`) exactly when the point
/// before it is drawable too, and starts a new piece (`MoveTo`) otherwise.
pub proof fn law_path_commands(d: Seq<bool>)
    requires
        d.len() <= usize::MAX,
    ensures
        forall|k: int|
            0 <= k < spec_path_commands(d).len() ==> 0 <= command_index(
                #[trigger] spec_path_commands(d)[k],
            ) < d.len() && d[command_index(spec_path_commands(d)[k])] && ((spec_path_commands(
                d,
            )[k] is LineTo) == (command_index(spec_path_commands(d)[k]) > 0 && d[command_index(
                spec_path_commands(d)[k],
            ) - 1])),
        forall|k1: int, k2: int|
            0 <= k1 < k2 < spec_path_commands(d).len() ==> command_index(
                #[trigger] spec_path_commands(d)[k1],
            ) < command_index(#[trigger] spec_path_commands(d)[k2]),
        forall|i: int|
            0 <= i < d.len() && #[trigger] d[i] ==> exists|k: int|
                0 <= k < spec_path_commands(d).len() && command_index(
                    #[trigger] spec_path_commands(d)[k],
                ) == i,
{
    lemma_path_commands(d);
}

proof fn lemma_linked_pairs(valid: Seq<bool>, upto: int)
    requires
        0 <= upto <= valid.len() <= usize::MAX,
    ensures
        ({
            let r = spec_linked_pairs(valid, upto);
            &&& forall|k: int|
                0 <= k < r.len() ==> #[trigger] r[k] < upto && r[k] + 1 < valid.len()
                    && valid[r[k] as int] && valid[r[k] + 1]
            &&& forall|k1: int, k2: int| 0 <= k1 < k2 < r.len() ==> #[trigger] r[k1] < #[trigger] r[k2]
            &&& forall|i: int|
                0 <= i < upto && i + 1 < valid.len() && #[trigger] valid[i] && valid[i + 1]
                    ==> exists|k: int| 0 <= k < r.len() && #[trigger] r[k] == i
        }),
    decreases upto,
{
    if upto > 0 {
        lemma_linked_pairs(valid, upto - 1);
        let prev = spec_linked_pairs(valid, upto - 1);
        let r = spec_linked_pairs(valid, upto);
        let i0: int = upto - 1;
        if i0 + 1 < valid.len() && valid[i0] && valid[i0 + 1] {
            assert(r.len() == prev.len() + 1);
            assert(r[prev.len() as int] == i0);
            assert forall|k: int| 0 <= k < prev.len() implies #[trigger] r[k] == prev[k] by {}
            assert forall|i: int|
                0 <= i < upto && i + 1 < valid.len() && #[trigger] valid[i] && valid[i + 1]
                    implies exists|k: int| 0 <= k < r.len() && #[trigger] r[k] == i by {
                if i == i0 {
                    assert(r[prev.len() as int] == i);
                } else {
                    let k = choose|k: int| 0 <= k < prev.len() && #[trigger] prev[k] == i;
                    assert(r[k] == prev[k]);
                }
            }
        } else {
            assert(r == prev);
        }
    }
}

/// The joined segments are listed in increasing order, and they are exactly the `i` for
/// which points `i` and `i + 1` are both valid.
pub proof fn law_linked_pairs(valid: Seq<bool>)
    requires
        valid.len() <= usize::MAX,
    ensures
        forall|k: int|
            0 <= k < spec_linked_pairs(valid, valid.len() as int).len() ==> #[trigger] spec_linked_pairs(
                valid,
                valid.len() as int,
            )[k] + 1 < valid.len() && valid[spec_linked_pairs(valid, valid.len() as int)[k] as int]
                && valid[spec_linked_pairs(valid, valid.len() as int)[k] + 1],
        forall|k1: int, k2: int|
            0 <= k1 < k2 < spec_linked_pairs(valid, valid.len() as int).len() ==> #[trigger] spec_linked_pairs(
                valid,
                valid.len() as int,
            )[k1] < #[trigger] spec_linked_pairs(valid, valid.len() as int)[k2],
        forall|i: int|
            0 <= i && i + 1 < valid.len() && #[trigger] valid[i] && valid[i + 1] ==> exists|k: int|
                0 <= k < spec_linked_pairs(valid, valid.len() as int).len()
                    && #[trigger] spec_linked_pairs(valid, valid.len() as int)[k] == i,
{
    lemma_linked_pairs(valid, valid.len() as int);
}

} // verus!

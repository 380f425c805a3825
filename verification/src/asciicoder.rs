//! Reads the picture that a machine prints as a stream of character codes.

use vstd::prelude::*;
use crate::intcoder::{IntResponse, Intcode};
use crate::model::Machine;
use crate::tile::Tile;

verus! {

/// The character that the output value `code` stands for: that of the tile
/// with the code's lowest eight bits.
pub open spec fn glyph_of(code: i64) -> char {
    Tile::of(code as u8).glyph()
}

/// What the machine prints until it halts or asks for input, if that takes at
/// most `limit` characters: the machine afterwards and the finished rows.
/// `rows` holds the rows finished so far and `row` the characters of the
/// current one; each end-of-row character finishes a row, and what follows
/// the last of them belongs to no row. The machine is offered a zero before
/// each character. `None` where more characters come or the machine reaches
/// no suspend point.
pub open spec fn filmed_within(
    m: Machine,
    rows: Seq<Seq<char>>,
    row: Seq<char>,
    limit: nat,
) -> Option<(Machine, Seq<Seq<char>>)>
    decreases limit,
{
    if limit == 0 || !m.supply(0).suspends() {
        None
    } else {
        match m.start(0) {
            (next, IntResponse::Output(code)) => if glyph_of(code) == '\n' {
                filmed_within(next, rows.push(row), Seq::empty(), (limit - 1) as nat)
            } else {
                filmed_within(next, rows, row.push(glyph_of(code)), (limit - 1) as nat)
            },
            (next, _) => Some((next, rows)),
        }
    }
}

/// Whether the machine's picture comes to an end.
pub open spec fn films(m: Machine) -> bool {
    exists|limit: nat| filmed_within(m, Seq::empty(), Seq::empty(), limit) is Some
}

/// The machine after it has printed its picture, and the rows of the picture.
pub open spec fn filmed(m: Machine) -> (Machine, Seq<Seq<char>>)
    recommends
        films(m),
{
    filmed_within(
        m,
        Seq::empty(),
        Seq::empty(),
        choose|limit: nat| filmed_within(m, Seq::empty(), Seq::empty(), limit) is Some,
    )->Some_0
}

/// A larger limit does not change a picture that has come to an end.
pub proof fn lemma_filmed_stable(
    m: Machine,
    rows: Seq<Seq<char>>,
    row: Seq<char>,
    limit: nat,
    larger: nat,
)
    requires
        limit <= larger,
        filmed_within(m, rows, row, limit) is Some,
    ensures
        filmed_within(m, rows, row, larger) == filmed_within(m, rows, row, limit),
    decreases limit,
{
    match m.start(0) {
        (next, IntResponse::Output(code)) => {
            if glyph_of(code) == '\n' {
                lemma_filmed_stable(
                    next,
                    rows.push(row),
                    Seq::empty(),
                    (limit - 1) as nat,
                    (larger - 1) as nat,
                );
            } else {
                lemma_filmed_stable(
                    next,
                    rows,
                    row.push(glyph_of(code)),
                    (limit - 1) as nat,
                    (larger - 1) as nat,
                );
            }
        },
        _ => {},
    }
}

/// A picture that ends within some limit is `filmed`.
pub proof fn lemma_filmed_is(m: Machine, limit: nat)
    requires
        filmed_within(m, Seq::empty(), Seq::empty(), limit) is Some,
    ensures
        films(m),
        filmed_within(m, Seq::empty(), Seq::empty(), limit) == Some(filmed(m)),
{
    let chosen = choose|chosen: nat| filmed_within(m, Seq::empty(), Seq::empty(), chosen) is Some;
    if chosen <= limit {
        lemma_filmed_stable(m, Seq::empty(), Seq::empty(), chosen, limit);
    } else {
        lemma_filmed_stable(m, Seq::empty(), Seq::empty(), limit, chosen);
    }
}

/// The rows of characters as sequences.
pub open spec fn rows_view(rows: Seq<Vec<char>>) -> Seq<Seq<char>> {
    rows.map_values(|row: Vec<char>| row@)
}

/// Runs the machine until it halts or asks for input and collects what it
/// prints on the way: one row of characters for each end-of-row code, in the
/// order printed. Characters after the last end of row are not part of the
/// picture.
///
/// The caller owes a machine whose picture comes to an end.
pub fn picture(icoder: &mut Intcode) -> (rows: Vec<Vec<char>>)
    requires
        films(old(icoder)@),
    ensures
        (final(icoder)@, rows_view(rows@)) == filmed(old(icoder)@),
{
    let mut rows: Vec<Vec<char>> = Vec::new();
    let mut row: Vec<char> = Vec::new();
    let ghost mut left: nat = choose|limit: nat|
        filmed_within(old(icoder)@, Seq::empty(), Seq::empty(), limit) is Some;
    proof {
        lemma_filmed_is(old(icoder)@, left);
        assert(rows_view(rows@) =~= Seq::empty());
    }
    loop
        invariant_except_break
            filmed_within(icoder@, rows_view(rows@), row@, left) == Some(filmed(old(icoder)@)),
        ensures
            (icoder@, rows_view(rows@)) == filmed(old(icoder)@),
        decreases left,
    {
        let t = match icoder.start(0) {
            IntResponse::Output(i) => Tile::new(#[verifier::truncate] (i as u8)),
            _ => {
                break;
            },
        };
        let c = t.toChar();
        if c == '\n' {
            let ghost before = rows_view(rows@);
            rows.push(row);
            assert(rows_view(rows@) =~= before.push(row@));
            row = Vec::new();
        } else {
            row.push(c);
        }
        proof {
            left = (left - 1) as nat;
        }
    }
    rows
}

} // verus!

//! The leaderboard query parse: a recursive descent over the platform's
//! nested sub-command options, yielding which standings to fetch and, for
//! the sliding puzzle, the typed filters.
//!
//! The option tree is modeled as a plain value; the platform's own
//! structures are converted outside.  Recursion is bounded by the fixed,
//! shallow schema depth — trees nested deeper than any command the engine
//! registers parse to nothing.

use vstd::prelude::*;

verus! {

use crate::db::SlidingPuzzleFilters;
use crate::db::SlidingPuzzleFilterBy;
use crate::db::SlidingPuzzleSortBy;
use crate::textutil::chars_eq;
use crate::textutil::str_chars;
use vstd::string::StringExecFns;

/// A sub-command option's payload: a group of options, a sub-command's
/// options, or a chosen text value.
#[derive(Debug)]
pub enum OptVal {
    Group(Vec<Opt>),
    Sub(Vec<Opt>),
    Text(String),
}

/// One option of the inbound command: its name and payload.
#[derive(Debug)]
pub struct Opt {
    pub name: String,
    pub value: OptVal,
}

/// Which standings an inbound leaderboard command asks for.
#[derive(Debug, Clone, Copy, PartialEq, Eq, Structural)]
pub enum LbQuery {
    SlidingPuzzle(SlidingPuzzleFilters),
    TicTacToe,
    UltimateTicTacToe,
}

/// How deep the recursive descent follows nested groups: the registered
/// schema is two levels deep, so this bound never cuts a real command.
pub open spec fn schema_depth() -> nat {
    4
}

/// The sliding-puzzle filters denoted by a sub-command's options, folded
/// left to right onto `f`: a `sort` choice of `score` or `time`, and a
/// `difficulty` choice of `easy`, `medium` or `hard`.  Anything else
/// denotes nothing.
pub open spec fn puzzle_filters_of(inner: Seq<Opt>, i: int, f: SlidingPuzzleFilters) -> Option<
    LbQuery,
>
    decreases inner.len() - i,
{
    if i < 0 || i >= inner.len() {
        Some(LbQuery::SlidingPuzzle(f))
    } else {
        let o = inner[i];
        if o.name@ == "sort"@ {
            match o.value {
                OptVal::Text(v) => if v@ == "score"@ {
                    puzzle_filters_of(
                        inner,
                        i + 1,
                        SlidingPuzzleFilters { sort_by: SlidingPuzzleSortBy::Score, ..f },
                    )
                } else if v@ == "time"@ {
                    puzzle_filters_of(
                        inner,
                        i + 1,
                        SlidingPuzzleFilters { sort_by: SlidingPuzzleSortBy::Time, ..f },
                    )
                } else {
                    None
                },
                _ => None,
            }
        } else if o.name@ == "difficulty"@ {
            match o.value {
                OptVal::Text(v) => if v@ == "easy"@ {
                    puzzle_filters_of(
                        inner,
                        i + 1,
                        SlidingPuzzleFilters {
                            filter_by: SlidingPuzzleFilterBy { difficulty: 0, ..f.filter_by },
                            ..f
                        },
                    )
                } else if v@ == "medium"@ {
                    puzzle_filters_of(
                        inner,
                        i + 1,
                        SlidingPuzzleFilters {
                            filter_by: SlidingPuzzleFilterBy { difficulty: 1, ..f.filter_by },
                            ..f
                        },
                    )
                } else if v@ == "hard"@ {
                    puzzle_filters_of(
                        inner,
                        i + 1,
                        SlidingPuzzleFilters {
                            filter_by: SlidingPuzzleFilterBy { difficulty: 2, ..f.filter_by },
                            ..f
                        },
                    )
                } else {
                    None
                },
                _ => None,
            }
        } else {
            None
        }
    }
}

/// The query the first option denotes: the puzzle group recurses one
/// level into its size sub-command, a size carries the filter options,
/// and the two-player games are plain sub-commands.  Unknown names, wrong
/// payload shapes, a missing option, and over-deep nesting denote
/// nothing.
pub open spec fn lb_query_of(opts: Seq<Opt>, depth: nat) -> Option<LbQuery>
    decreases depth,
{
    if depth == 0 || opts.len() == 0 {
        None
    } else {
        let o = opts[0];
        if o.name@ == "slidingpuzzle"@ {
            match o.value {
                OptVal::Group(inner) => lb_query_of(inner@, (depth - 1) as nat),
                _ => None,
            }
        } else if o.name@ == "3x3"@ {
            match o.value {
                OptVal::Sub(inner) => puzzle_filters_of(inner@, 0, base_filters(0)),
                _ => None,
            }
        } else if o.name@ == "4x4"@ {
            match o.value {
                OptVal::Sub(inner) => puzzle_filters_of(inner@, 0, base_filters(1)),
                _ => None,
            }
        } else if o.name@ == "5x5"@ {
            match o.value {
                OptVal::Sub(inner) => puzzle_filters_of(inner@, 0, base_filters(2)),
                _ => None,
            }
        } else if o.name@ == "tictactoe"@ {
            match o.value {
                OptVal::Sub(_) => Some(LbQuery::TicTacToe),
                _ => None,
            }
        } else if o.name@ == "ultimate_tictactoe"@ {
            match o.value {
                OptVal::Sub(_) => Some(LbQuery::UltimateTicTacToe),
                _ => None,
            }
        } else {
            None
        }
    }
}

/// The default filters with the chosen size code.
pub open spec fn base_filters(size: i32) -> SlidingPuzzleFilters {
    SlidingPuzzleFilters {
        sort_by: SlidingPuzzleSortBy::Score,
        filter_by: SlidingPuzzleFilterBy { difficulty: 0, size },
        limit: 10,
        offset: 0,
    }
}

/// Whether a name equals a literal.
fn name_is(s: &String, lit: &str) -> (r: bool)
    ensures
        r == (s@ == lit@),
{
    let cs = str_chars(s.as_str());
    chars_eq(&cs, lit)
}

/// Parse one sub-command's filter options.
fn parse_filters(inner: &Vec<Opt>, base: SlidingPuzzleFilters) -> (r: Result<LbQuery, String>)
    ensures
        r matches Ok(q) ==> puzzle_filters_of(inner@, 0, base) == Some(q),
        r is Err <==> puzzle_filters_of(inner@, 0, base) is None,
{
    let mut f = base;
    let mut i: usize = 0;
    while i < inner.len()
        invariant
            i <= inner@.len(),
            puzzle_filters_of(inner@, 0, base) == puzzle_filters_of(inner@, i as int, f),
        decreases inner@.len() - i,
    {
        let o = &inner[i];
        if name_is(&o.name, "sort") {
            match &o.value {
                OptVal::Text(v) => {
                    if name_is(v, "score") {
                        f.sort_by_score();
                    } else if name_is(v, "time") {
                        f.sort_by_time();
                    } else {
                        return Err(String::from_str("unhandled sort value"));
                    }
                },
                _ => {
                    return Err(String::from_str("expected a text choice for sort"));
                },
            }
        } else if name_is(&o.name, "difficulty") {
            match &o.value {
                OptVal::Text(v) => {
                    if name_is(v, "easy") {
                        f.easy();
                    } else if name_is(v, "medium") {
                        f.medium();
                    } else if name_is(v, "hard") {
                        f.hard();
                    } else {
                        return Err(String::from_str("unhandled difficulty value"));
                    }
                },
                _ => {
                    return Err(String::from_str("expected a text choice for difficulty"));
                },
            }
        } else {
            return Err(String::from_str("unhandled option"));
        }
        i = i + 1;
    }
    Ok(LbQuery::SlidingPuzzle(f))
}

fn parse_at_depth(opts: &Vec<Opt>, depth: u32) -> (r: Result<LbQuery, String>)
    ensures
        r matches Ok(q) ==> lb_query_of(opts@, depth as nat) == Some(q),
        r is Err <==> lb_query_of(opts@, depth as nat) is None,
    decreases depth,
{
    if depth == 0 {
        return Err(String::from_str("options nested deeper than any registered command"));
    }
    if opts.len() == 0 {
        return Err(String::from_str("no options found"));
    }
    let o = &opts[0];
    if name_is(&o.name, "slidingpuzzle") {
        match &o.value {
            OptVal::Group(inner) => parse_at_depth(inner, depth - 1),
            _ => Err(String::from_str("expected a sub-command group")),
        }
    } else if name_is(&o.name, "3x3") {
        match &o.value {
            OptVal::Sub(inner) => parse_filters(inner, base_exec(0)),
            _ => Err(String::from_str("expected a sub-command")),
        }
    } else if name_is(&o.name, "4x4") {
        match &o.value {
            OptVal::Sub(inner) => parse_filters(inner, base_exec(1)),
            _ => Err(String::from_str("expected a sub-command")),
        }
    } else if name_is(&o.name, "5x5") {
        match &o.value {
            OptVal::Sub(inner) => parse_filters(inner, base_exec(2)),
            _ => Err(String::from_str("expected a sub-command")),
        }
    } else if name_is(&o.name, "tictactoe") {
        match &o.value {
            OptVal::Sub(_) => Ok(LbQuery::TicTacToe),
            _ => Err(String::from_str("expected a sub-command")),
        }
    } else if name_is(&o.name, "ultimate_tictactoe") {
        match &o.value {
            OptVal::Sub(_) => Ok(LbQuery::UltimateTicTacToe),
            _ => Err(String::from_str("expected a sub-command")),
        }
    } else {
        Err(String::from_str("unhandled option"))
    }
}

fn base_exec(size: i32) -> (r: SlidingPuzzleFilters)
    ensures
        r == base_filters(size),
{
    SlidingPuzzleFilters {
        sort_by: SlidingPuzzleSortBy::Score,
        filter_by: SlidingPuzzleFilterBy { difficulty: 0, size },
        limit: 10,
        offset: 0,
    }
}

/// Turn an inbound leaderboard command's options into the query it asks
/// for: which game's standings, and the typed puzzle filters.  Unknown
/// names, wrong payload shapes and unhandled choices are rejected with a
/// short message, exactly when the tree denotes no query.
pub fn parse_leaderboard_query(opts: &Vec<Opt>) -> (r: Result<LbQuery, String>)
    ensures
        r matches Ok(q) ==> lb_query_of(opts@, schema_depth()) == Some(q),
        r is Err <==> lb_query_of(opts@, schema_depth()) is None,
{
    parse_at_depth(opts, 4)
}

} // verus!

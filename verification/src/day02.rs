//! Rock-paper-scissors strategy scoring.
use vstd::prelude::*;

verus! {

/// A throw of the game.
#[derive(Copy, Clone, PartialEq, Eq, Structural, Debug)]
pub enum Move {
    Rock,
    Paper,
    Scissors,
}

/// Outcome of one round, seen from our side.
#[derive(Copy, Clone, PartialEq, Eq, Structural, Debug)]
pub enum MatchResult {
    Win,
    Draw,
    Lose,
}

impl MatchResult {
    /// Encoding used by the strategy column: 2 wins, 1 draws, 0 loses.
    pub open spec fn spec_from_id(id: u8) -> MatchResult {
        if id == 2 {
            MatchResult::Win
        } else if id == 1 {
            MatchResult::Draw
        } else {
            MatchResult::Lose
        }
    }

    /// Points awarded for the outcome itself.
    pub open spec fn spec_value(self) -> int {
        match self {
            MatchResult::Win => 6,
            MatchResult::Draw => 3,
            MatchResult::Lose => 0,
        }
    }

    /// Decodes the strategy column: 2 wins, 1 draws, 0 loses.
    pub fn from_id(id: u8) -> (r: MatchResult)
        requires
            id <= 2,
        ensures
            r == MatchResult::spec_from_id(id),
    {
        if id == 2 {
            MatchResult::Win
        } else if id == 1 {
            MatchResult::Draw
        } else {
            MatchResult::Lose
        }
    }

    /// The move that produces this outcome against `move_`.
    pub fn response_for(self, move_: Move) -> (r: Move)
        ensures
            r == self.spec_response_for(move_),
    {
        match self {
            MatchResult::Win => move_.better(),
            MatchResult::Draw => move_,
            MatchResult::Lose => move_.worse(),
        }
    }

    /// What `response_for` picks.
    pub open spec fn spec_response_for(self, move_: Move) -> Move {
        match self {
            MatchResult::Win => move_.spec_better(),
            MatchResult::Draw => move_,
            MatchResult::Lose => move_.spec_worse(),
        }
    }

    /// Total round score when answering `move_` so as to reach this outcome.
    pub fn score_for_response(self, move_: Move) -> (s: u32)
        ensures
            s == self.spec_response_for(move_).spec_id() + self.spec_value() + 1,
    {
        let response = self.response_for(move_);
        response.score_against(move_)
    }
}

impl Move {
    /// Encoding of moves: 0 rock, 1 paper, 2 scissors.
    pub open spec fn spec_id(self) -> int {
        match self {
            Move::Rock => 0,
            Move::Paper => 1,
            Move::Scissors => 2,
        }
    }

    /// Decoding of `spec_id`.
    pub open spec fn spec_from_id(id: u8) -> Move {
        if id == 0 {
            Move::Rock
        } else if id == 1 {
            Move::Paper
        } else {
            Move::Scissors
        }
    }

    /// Decodes a move: 0 rock, 1 paper, 2 scissors.
    pub fn from_id(id: u8) -> (r: Move)
        requires
            id <= 2,
        ensures
            r == Move::spec_from_id(id),
    {
        if id == 0 {
            Move::Rock
        } else if id == 1 {
            Move::Paper
        } else {
            Move::Scissors
        }
    }

    /// The move that beats this one.
    pub open spec fn spec_better(self) -> Move {
        match self {
            Move::Rock => Move::Paper,
            Move::Paper => Move::Scissors,
            Move::Scissors => Move::Rock,
        }
    }

    /// The move this one beats.
    pub open spec fn spec_worse(self) -> Move {
        match self {
            Move::Rock => Move::Scissors,
            Move::Paper => Move::Rock,
            Move::Scissors => Move::Paper,
        }
    }

    /// The move that beats this one.
    pub fn better(self) -> (r: Move)
        ensures
            r == self.spec_better(),
    {
        match self {
            Move::Rock => Move::Paper,
            Move::Paper => Move::Scissors,
            Move::Scissors => Move::Rock,
        }
    }

    /// The move this one beats.
    pub fn worse(self) -> (r: Move)
        ensures
            r == self.spec_worse(),
    {
        match self {
            Move::Rock => Move::Scissors,
            Move::Paper => Move::Rock,
            Move::Scissors => Move::Paper,
        }
    }

    /// Whether the two moves are the same.
    pub fn eq(self, other: Move) -> (r: bool)
        ensures
            r == (self == other),
    {
        let a: u8 = match self {
            Move::Rock => 0,
            Move::Paper => 1,
            Move::Scissors => 2,
        };
        let b: u8 = match other {
            Move::Rock => 0,
            Move::Paper => 1,
            Move::Scissors => 2,
        };
        a == b
    }

    /// Outcome for us when we throw `self` against `other`.
    pub open spec fn spec_fight(self, other: Move) -> MatchResult {
        if self == other {
            MatchResult::Draw
        } else if self.spec_better() == other {
            MatchResult::Lose
        } else {
            MatchResult::Win
        }
    }

    /// Outcome for us when we throw `self` against `other`.
    pub fn fight(self, other: Move) -> (r: MatchResult)
        ensures
            r == self.spec_fight(other),
    {
        if self.eq(other) {
            MatchResult::Draw
        } else if self.better().eq(other) {
            MatchResult::Lose
        } else {
            MatchResult::Win
        }
    }

    /// Round score: the move's own points plus the outcome's points.
    pub fn score(self, result: MatchResult) -> (s: u32)
        ensures
            s == self.spec_id() + result.spec_value() + 1,
    {
        let move_points: u32 = match self {
            Move::Rock => 0,
            Move::Paper => 1,
            Move::Scissors => 2,
        };
        let result_points: u32 = match result {
            MatchResult::Win => 6,
            MatchResult::Draw => 3,
            MatchResult::Lose => 0,
        };
        move_points + result_points + 1
    }

    /// Round score of throwing `self` against `other`.
    pub fn score_against(self, other: Move) -> (s: u32)
        ensures
            s == self.spec_id() + self.spec_fight(other).spec_value() + 1,
    {
        self.score(self.fight(other))
    }
}

} // verus!

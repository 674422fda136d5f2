//! The ordered rating used for thoroughness, understanding and trust.

use vstd::prelude::*;
use vstd::string::*;
use crate::bytes::text_eq;

verus! {

/// A rating. `Low` is the least and `High` the most.
#[derive(Clone, Copy, Debug, PartialEq, Eq, PartialOrd, Ord, Hash, Structural)]
pub enum Level {
    Low,
    Medium,
    High,
}

impl Level {
    /// The place of the level in the order, from zero.
    pub open spec fn rank(self) -> nat {
        match self {
            Level::Low => 0,
            Level::Medium => 1,
            Level::High => 2,
        }
    }

    /// The word that stands for the level in a proof.
    pub open spec fn word(self) -> Seq<char> {
        match self {
            Level::Low => "low"@,
            Level::Medium => "medium"@,
            Level::High => "high"@,
        }
    }

    /// The level that `word` stands for, if it stands for one.
    pub open spec fn of_word(word: Seq<char>) -> Option<Level> {
        if word == "low"@ {
            Some(Level::Low)
        } else if word == "medium"@ {
            Some(Level::Medium)
        } else if word == "high"@ {
            Some(Level::High)
        } else {
            None
        }
    }

    /// The place of the level in the order, from zero.
    pub fn grade(self) -> (grade: u8)
        ensures
            grade == self.rank(),
    {
        match self {
            Level::Low => 0,
            Level::Medium => 1,
            Level::High => 2,
        }
    }

    /// Whether this level is `other` or above it.
    pub fn at_least(self, other: Level) -> (holds: bool)
        ensures
            holds == (self.rank() >= other.rank()),
    {
        self.grade() >= other.grade()
    }

    /// The lower of two levels.
    pub fn weakest(self, other: Level) -> (lower: Level)
        ensures
            lower.rank() == if self.rank() <= other.rank() {
                self.rank()
            } else {
                other.rank()
            },
            lower == self || lower == other,
    {
        if self.grade() <= other.grade() {
            self
        } else {
            other
        }
    }

    /// The word that stands for the level in a proof.
    pub fn label(self) -> (label: String)
        ensures
            label@ == self.word(),
    {
        match self {
            Level::Low => String::from_str("low"),
            Level::Medium => String::from_str("medium"),
            Level::High => String::from_str("high"),
        }
    }

    /// Reads a level from its word.
    pub fn parse(word: &str) -> (level: Option<Level>)
        ensures
            level == Level::of_word(word@),
    {
        if text_eq(word, "low") {
            Some(Level::Low)
        } else if text_eq(word, "medium") {
            Some(Level::Medium)
        } else if text_eq(word, "high") {
            Some(Level::High)
        } else {
            None
        }
    }

    /// Two levels of the same rank are the same level, and the word of a
    /// level reads back as the level.
    pub proof fn lemma_order(a: Level, b: Level)
        ensures
            a.rank() == b.rank() <==> a == b,
            a.rank() <= b.rank() || b.rank() <= a.rank(),
            Level::of_word(a.word()) == Some(a),
    {
        reveal_strlit("low");
        reveal_strlit("medium");
        reveal_strlit("high");
        assert("low"@.len() == 3 && "medium"@.len() == 6 && "high"@.len() == 4);
    }
}

impl Default for Level {
    /// The level of a review of which nothing else was said.
    fn default() -> (level: Level)
        ensures
            level == Level::Low,
    {
        Level::Low
    }
}

} // verus!

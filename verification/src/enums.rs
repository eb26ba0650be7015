//! Concrete bound symbolic-value types, written out exactly in the shape the
//! binder derives for a variant set: a label table, the three operations, and
//! the proof that the binding laws hold.  They exercise the `Enum` contract
//! and serve as the template a new bound type follows.

use vstd::prelude::*;

use crate::mapping::Enum;

verus! {

/// A process state, bound to the lower-case renderings of its identifiers.
#[derive(Clone, Copy, Debug, PartialEq, Eq, Structural)]
pub enum State {
    Stopped,
    Running,
    Stopping,
}

impl Enum for State {
    open spec fn spec_labels() -> Seq<Seq<char>> {
        seq!["stopped"@, "running"@, "stopping"@]
    }

    open spec fn spec_label(self) -> Seq<char> {
        match self {
            State::Stopped => "stopped"@,
            State::Running => "running"@,
            State::Stopping => "stopping"@,
        }
    }

    proof fn lemma_well_formed() {
        reveal_strlit("stopped");
        reveal_strlit("running");
        reveal_strlit("stopping");
        assert(Self::spec_labels()[0] == "stopped"@);
        assert(Self::spec_labels()[1] == "running"@);
        assert(Self::spec_labels()[2] == "stopping"@);
        assert("stopped"@ != "running"@) by {
            assert("stopped"@[0] != "running"@[0]);
        }
        assert("stopped"@ != "stopping"@) by {
            assert("stopped"@.len() != "stopping"@.len());
        }
        assert("running"@ != "stopping"@) by {
            assert("running"@.len() != "stopping"@.len());
        }
        assert(State::Stopped.spec_label() == Self::spec_labels()[0]);
        assert(State::Running.spec_label() == Self::spec_labels()[1]);
        assert(State::Stopping.spec_label() == Self::spec_labels()[2]);
    }

    fn value(&self) -> (r: String) {
        match self {
            State::Stopped => String::from_str("stopped"),
            State::Running => String::from_str("running"),
            State::Stopping => String::from_str("stopping"),
        }
    }

    fn from_value(s: &str) -> (r: Self) {
        let q = String::from_str(s);
        if q == String::from_str("stopped") {
            State::Stopped
        } else if q == String::from_str("running") {
            State::Running
        } else {
            proof {
                let v = choose|v: State| v.spec_label() == s@;
                assert(v.spec_label() == "stopping"@);
            }
            State::Stopping
        }
    }

    fn values() -> (r: Vec<String>) {
        let mut r: Vec<String> = Vec::new();
        r.push(String::from_str("stopped"));
        r.push(String::from_str("running"));
        r.push(String::from_str("stopping"));
        proof {
            assert(r@.map_values(|s: String| s@) =~= Self::spec_labels());
        }
        r
    }
}

/// A colour, bound to the snake-case renderings of its identifiers.
#[derive(Clone, Copy, Debug, PartialEq, Eq, Structural)]
pub enum Color {
    Red,
    Green,
    Yellow,
    DarkBlue,
}

impl Enum for Color {
    open spec fn spec_labels() -> Seq<Seq<char>> {
        seq!["red"@, "green"@, "yellow"@, "dark_blue"@]
    }

    open spec fn spec_label(self) -> Seq<char> {
        match self {
            Color::Red => "red"@,
            Color::Green => "green"@,
            Color::Yellow => "yellow"@,
            Color::DarkBlue => "dark_blue"@,
        }
    }

    proof fn lemma_well_formed() {
        reveal_strlit("red");
        reveal_strlit("green");
        reveal_strlit("yellow");
        reveal_strlit("dark_blue");
        assert(Self::spec_labels()[0] == "red"@);
        assert(Self::spec_labels()[1] == "green"@);
        assert(Self::spec_labels()[2] == "yellow"@);
        assert(Self::spec_labels()[3] == "dark_blue"@);
        assert("red"@ != "green"@ && "red"@ != "yellow"@ && "red"@ != "dark_blue"@) by {
            assert("red"@.len() != "green"@.len());
            assert("red"@.len() != "yellow"@.len());
            assert("red"@.len() != "dark_blue"@.len());
        }
        assert("green"@ != "yellow"@ && "green"@ != "dark_blue"@ && "yellow"@ != "dark_blue"@)
            by {
            assert("green"@.len() != "yellow"@.len());
            assert("green"@.len() != "dark_blue"@.len());
            assert("yellow"@.len() != "dark_blue"@.len());
        }
        assert(Color::Red.spec_label() == Self::spec_labels()[0]);
        assert(Color::Green.spec_label() == Self::spec_labels()[1]);
        assert(Color::Yellow.spec_label() == Self::spec_labels()[2]);
        assert(Color::DarkBlue.spec_label() == Self::spec_labels()[3]);
    }

    fn value(&self) -> (r: String) {
        match self {
            Color::Red => String::from_str("red"),
            Color::Green => String::from_str("green"),
            Color::Yellow => String::from_str("yellow"),
            Color::DarkBlue => String::from_str("dark_blue"),
        }
    }

    fn from_value(s: &str) -> (r: Self) {
        let q = String::from_str(s);
        if q == String::from_str("red") {
            Color::Red
        } else if q == String::from_str("green") {
            Color::Green
        } else if q == String::from_str("yellow") {
            Color::Yellow
        } else {
            proof {
                let v = choose|v: Color| v.spec_label() == s@;
                assert(v.spec_label() == "dark_blue"@);
            }
            Color::DarkBlue
        }
    }

    fn values() -> (r: Vec<String>) {
        let mut r: Vec<String> = Vec::new();
        r.push(String::from_str("red"));
        r.push(String::from_str("green"));
        r.push(String::from_str("yellow"));
        r.push(String::from_str("dark_blue"));
        proof {
            assert(r@.map_values(|s: String| s@) =~= Self::spec_labels());
        }
        r
    }
}

} // verus!

//! The mirrors that release assets can be fetched from.

use crate::text::{equal, replace, replace_all};
use vstd::prelude::*;

verus! {

/// A mirror that release assets can be fetched from.
#[derive(Clone, Copy, Debug, PartialEq, Eq, Structural)]
pub enum Source {
    GodotHub,
    GodotEngine,
}

impl Source {
    /// The host and organisation path of the mirror.
    pub open spec fn domain(self) -> Seq<char> {
        match self {
            Source::GodotHub => "gitcode.com/godothub"@,
            Source::GodotEngine => "github.com/godotengine"@,
        }
    }

    /// The label under which the mirror is stored in the configuration.
    pub open spec fn name(self) -> Seq<char> {
        match self {
            Source::GodotHub => "GodotHub"@,
            Source::GodotEngine => "GodotEngine"@,
        }
    }

    /// The mirror that a label stands for. A label that is not known stands
    /// for the default mirror.
    pub open spec fn labelled(label: Seq<char>) -> Source {
        if label == "GodotEngine"@ {
            Source::GodotEngine
        } else {
            Source::GodotHub
        }
    }

    pub fn get_domain(&self) -> (domain: &'static str)
        ensures
            domain@ == self.domain(),
    {
        match self {
            Source::GodotHub => "gitcode.com/godothub",
            Source::GodotEngine => "github.com/godotengine",
        }
    }

    pub fn get_name(&self) -> (name: &'static str)
        ensures
            name@ == self.name(),
    {
        match self {
            Source::GodotHub => "GodotHub",
            Source::GodotEngine => "GodotEngine",
        }
    }

    /// The mirror that a label stands for; the default mirror for a label
    /// that is not known.
    pub fn from_str(s: &str) -> (source: Self)
        ensures
            source == Source::labelled(s@),
    {
        if equal(s, "GodotEngine") {
            Source::GodotEngine
        } else {
            Source::GodotHub
        }
    }
}

/// Reading a mirror's label gives the mirror back.
pub proof fn lemma_label_round_trip(source: Source)
    ensures
        Source::labelled(source.name()) == source,
{
    reveal_strlit("GodotHub");
    reveal_strlit("GodotEngine");
    if source == Source::GodotHub {
        assert("GodotHub"@.len() != "GodotEngine"@.len());
    }
}

/// The address with the upstream domain replaced by that of the chosen
/// mirror; of the default mirror where none is chosen.
pub open spec fn mirrored(url: Seq<char>, source: Option<Source>) -> Seq<char> {
    let chosen = match source {
        Some(s) => s,
        None => Source::GodotHub,
    };
    replace_all(url, Source::GodotEngine.domain(), chosen.domain())
}

/// The address as the chosen mirror serves it.
pub fn format_url(url: &str, source: Option<Source>) -> (out: String)
    ensures
        out@ == mirrored(url@, source),
{
    let chosen = match source {
        Some(s) => s,
        None => Source::GodotHub,
    };
    replace(url, Source::GodotEngine.get_domain(), chosen.get_domain())
}

} // verus!

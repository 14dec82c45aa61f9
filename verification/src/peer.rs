//! What the two ends of a connection must agree on.

use vstd::prelude::*;

use crate::text::same;

verus! {

/// The channel label both sides must agree on, and a version marker with it: a peer
/// running older code will not match, which is a clearer failure than exchanging
/// messages neither side can parse.
pub const CHANNEL: &'static str = "waldo-v1";

/// What a session description is for.
#[derive(Clone, Copy, Debug, PartialEq, Eq, Structural)]
pub enum Sdp {
    Offer,
    Answer,
    Pranswer,
    Rollback,
}

impl Sdp {
    pub open spec fn text(self) -> Seq<char> {
        match self {
            Sdp::Offer => "offer"@,
            Sdp::Answer => "answer"@,
            Sdp::Pranswer => "pranswer"@,
            Sdp::Rollback => "rollback"@,
        }
    }

    /// How it is written.
    pub fn name(self) -> (name: &'static str)
        ensures
            name@ == self.text(),
    {
        match self {
            Sdp::Offer => "offer",
            Sdp::Answer => "answer",
            Sdp::Pranswer => "pranswer",
            Sdp::Rollback => "rollback",
        }
    }

    /// What a description that someone sent is for. Nobody may send a rollback.
    pub open spec fn read(kind: Seq<char>) -> Result<Sdp, Seq<char>> {
        if kind == "offer"@ {
            Ok(Sdp::Offer)
        } else if kind == "answer"@ {
            Ok(Sdp::Answer)
        } else if kind == "pranswer"@ {
            Ok(Sdp::Pranswer)
        } else {
            Err("unknown sdp type "@ + kind)
        }
    }

    pub fn parse(kind: &str) -> (r: Result<Sdp, String>)
        ensures
            match r {
                Ok(sdp) => Sdp::read(kind@) == Ok::<Sdp, Seq<char>>(sdp),
                Err(e) => Sdp::read(kind@) == Err::<Sdp, Seq<char>>(e@),
            },
    {
        if same(kind, "offer") {
            Ok(Sdp::Offer)
        } else if same(kind, "answer") {
            Ok(Sdp::Answer)
        } else if same(kind, "pranswer") {
            Ok(Sdp::Pranswer)
        } else {
            let mut e = "unknown sdp type ".to_owned();
            e.append(kind);
            Err(e)
        }
    }
}

/// What one end writes, the other reads, except a rollback.
pub proof fn law_descriptions_are_understood(sdp: Sdp)
    requires
        sdp != Sdp::Rollback,
    ensures
        Sdp::read(sdp.text()) == Ok::<Sdp, Seq<char>>(sdp),
{
    reveal_strlit("offer");
    reveal_strlit("answer");
    reveal_strlit("pranswer");
    assert("answer"@.len() == 6 && "offer"@.len() == 5 && "pranswer"@.len() == 8);
}

/// Only an offer, an answer or a provisional answer is understood. Anything else is refused
/// by name, a rollback too.
pub proof fn law_other_descriptions_are_refused(kind: Seq<char>)
    ensures
        Sdp::read(kind) is Ok <==> kind == "offer"@ || kind == "answer"@ || kind == "pranswer"@,
        Sdp::read(kind) is Err ==> Sdp::read(kind)->Err_0 == "unknown sdp type "@ + kind,
        Sdp::Rollback.text() == "rollback"@,
        Sdp::read("offer"@) == Ok::<Sdp, Seq<char>>(Sdp::Offer),
        Sdp::read("answer"@) == Ok::<Sdp, Seq<char>>(Sdp::Answer),
        Sdp::read("pranswer"@) == Ok::<Sdp, Seq<char>>(Sdp::Pranswer),
{
    law_descriptions_are_understood(Sdp::Offer);
    law_descriptions_are_understood(Sdp::Answer);
    law_descriptions_are_understood(Sdp::Pranswer);
}

} // verus!

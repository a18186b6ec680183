//! Where the server listens, and what it says about it.

use vstd::prelude::*;
use crate::chars::{cat2, cat3};

verus! {

/// What to do when an address cannot be had.
#[derive(Debug, PartialEq, Eq)]
pub enum BindStep {
    /// Take any free loopback port instead, and say so.
    AnyPort(String),
    Fail(String),
}

#[verifier::ext_equal]
pub enum BindStepView {
    AnyPort(Seq<char>),
    Fail(Seq<char>),
}

impl View for BindStep {
    type V = BindStepView;

    open spec fn view(&self) -> BindStepView {
        match self {
            BindStep::AnyPort(note) => BindStepView::AnyPort(note@),
            BindStep::Fail(why) => BindStepView::Fail(why@),
        }
    }
}

/// Only the address that nobody asked for gives way, and only where it is in use.
/// One that was asked for is meant: the failure names it, and a way out.
pub open spec fn bind_step(asked: bool, in_use: bool, address: Seq<char>) -> BindStepView {
    if asked {
        BindStepView::Fail(
            "binding "@ + address
                + " — pick another port, or --bind 127.0.0.1:0 for an ephemeral one"@,
        )
    } else if in_use {
        BindStepView::AnyPort("note: "@ + address + " is taken; using an ephemeral port"@)
    } else {
        BindStepView::Fail("binding "@ + address)
    }
}

pub fn bind_failed(asked: bool, in_use: bool, address: &str) -> (r: BindStep)
    ensures
        r@ == bind_step(asked, in_use, address@),
{
    if asked {
        BindStep::Fail(
            cat3(
                "binding ",
                address,
                " — pick another port, or --bind 127.0.0.1:0 for an ephemeral one",
            ),
        )
    } else if in_use {
        BindStep::AnyPort(cat3("note: ", address, " is taken; using an ephemeral port"))
    } else {
        BindStep::Fail(cat2("binding ", address))
    }
}

/// An address that somebody asked for is never given up for another.
pub proof fn law_an_address_that_was_asked_for_is_meant(in_use: bool, address: Seq<char>)
    ensures
        bind_step(true, in_use, address) is Fail,
{
}

/// What is said of an address that others can reach.
pub fn exposure_warning(loopback: bool, address: &str) -> (r: Option<String>)
    ensures
        match r {
            Some(said) => !loopback && said@ == "warning: "@ + address@
                + " is not loopback. Traffic and the token are unencrypted, and the token can start turns here — put this behind a VPN or an SSH tunnel, never on the public internet."@,
            None => loopback,
        },
{
    if loopback {
        None
    } else {
        Some(
            cat3(
                "warning: ",
                address,
                " is not loopback. Traffic and the token are unencrypted, and the token can start turns here — put this behind a VPN or an SSH tunnel, never on the public internet.",
            ),
        )
    }
}

} // verus!

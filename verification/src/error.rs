//! Errors of the upstream registry and of resolution.

use vstd::prelude::*;

verus! {

/// What can go wrong while a registry is built or a query is resolved.
#[derive(Debug, Clone, PartialEq, Eq)]
pub enum UpstreamError {
    /// Two definitions share this label.
    MultipleDefinition(String),
    /// This label is referred to, and nothing defines it.
    MissingTag(String),
    /// The hybrid with this label has no members.
    EmptyHybrid(String),
    /// This label is reached a second time while one root is walked.
    HybridRecursion(String),
    /// The transport failed; the text says how.
    ClientError(String),
    /// The upstream did not answer in time.
    Timeout,
    /// The upstream answered with something that is no DNS message.
    MalformedResponse,
}

/// An `UpstreamError` as contracts see it: each label and text by its characters.
pub enum ErrorView {
    MultipleDefinition(Seq<char>),
    MissingTag(Seq<char>),
    EmptyHybrid(Seq<char>),
    HybridRecursion(Seq<char>),
    ClientError(Seq<char>),
    Timeout,
    MalformedResponse,
}

impl View for UpstreamError {
    type V = ErrorView;

    open spec fn view(&self) -> ErrorView {
        match *self {
            UpstreamError::MultipleDefinition(l) => ErrorView::MultipleDefinition(l@),
            UpstreamError::MissingTag(l) => ErrorView::MissingTag(l@),
            UpstreamError::EmptyHybrid(l) => ErrorView::EmptyHybrid(l@),
            UpstreamError::HybridRecursion(l) => ErrorView::HybridRecursion(l@),
            UpstreamError::ClientError(d) => ErrorView::ClientError(d@),
            UpstreamError::Timeout => ErrorView::Timeout,
            UpstreamError::MalformedResponse => ErrorView::MalformedResponse,
        }
    }
}

/// What can go wrong while a router is built.
#[derive(Debug, Clone, PartialEq, Eq)]
pub enum DrouteError {
    /// The upstreams, or a rule's reference to one, are at fault.
    Upstream(UpstreamError),
    /// The rule table does not end in a rule that matches every query and
    /// names an upstream.
    InvalidRule,
}

/// A `DrouteError` as contracts see it.
pub enum DrouteErrorView {
    Upstream(ErrorView),
    InvalidRule,
}

impl View for DrouteError {
    type V = DrouteErrorView;

    open spec fn view(&self) -> DrouteErrorView {
        match *self {
            DrouteError::Upstream(e) => DrouteErrorView::Upstream(e@),
            DrouteError::InvalidRule => DrouteErrorView::InvalidRule,
        }
    }
}

} // verus!

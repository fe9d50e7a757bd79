//! Local resolution of BSL calls to declarations of the same module.
//!
//! Names are compared through their lowercase keys; when several declarations
//! share a key, the last one wins.

use vstd::prelude::*;

use crate::bsl::calls::{find_first_dot, first_dot, BslCall, CallView};
use crate::bsl::{bsl_name_key, lowercase, BslSymbol, SymbolView};
use crate::entity::{EntityId, EntityName};

verus! {

/// Index of the last of `names[..n]` whose lowercase key is `key`, or `-1`.
pub open spec fn last_named(names: Seq<Seq<char>>, key: Seq<char>, n: int) -> int
    decreases n,
{
    if n <= 0 || n > names.len() {
        -1
    } else if lowercase(names[n - 1]) == key {
        n - 1
    } else {
        last_named(names, key, n - 1)
    }
}

/// The names of `syms`.
pub open spec fn symbol_names(syms: Seq<SymbolView>) -> Seq<Seq<char>> {
    syms.map_values(|s: SymbolView| s.name)
}

/// The symbols of `v`.
pub open spec fn symbol_seq(v: Seq<BslSymbol>) -> Seq<SymbolView> {
    v.map_values(|s: BslSymbol| s@)
}

/// Returns `last_named(symbol_names(symbol_seq(symbols)), key, symbols.len())`.
pub(crate) fn find_symbol(symbols: &[BslSymbol], key: &String) -> (r: Option<usize>)
    ensures
        match r {
            Some(i) => last_named(symbol_names(symbol_seq(symbols@)), key@, symbols@.len() as int)
                == i as int && i < symbols@.len(),
            None => last_named(symbol_names(symbol_seq(symbols@)), key@, symbols@.len() as int)
                == -1,
        },
{
    let ghost names = symbol_names(symbol_seq(symbols@));
    let mut k = symbols.len();
    while k > 0
        invariant
            k <= symbols@.len(),
            names == symbol_names(symbol_seq(symbols@)),
            last_named(names, key@, k as int) == last_named(names, key@, symbols@.len() as int),
        decreases k,
    {
        let candidate = bsl_name_key(symbols[k - 1].name().as_str());
        assert(names[k - 1] == symbols@[k - 1]@.name);
        if candidate == *key {
            return Some(k - 1);
        }
        k = k - 1;
    }
    None
}

/// A call resolved between two declarations: caller, callee and line.
pub struct ResolvedView {
    pub origin: Seq<char>,
    pub destination: Seq<char>,
    pub line: int,
}

/// A call resolved between two declarations in the same BSL module.
#[derive(Debug, Clone, PartialEq, Eq)]
pub struct ResolvedBslCall {
    origin_id: EntityId,
    destination_id: EntityId,
    line: usize,
}

impl View for ResolvedBslCall {
    type V = ResolvedView;

    closed spec fn view(&self) -> ResolvedView {
        ResolvedView { origin: self.origin_id@, destination: self.destination_id@, line: self.line as int }
    }
}

impl ResolvedBslCall {
    /// Creates a resolved call.
    pub fn new(origin_id: EntityId, destination_id: EntityId, line: usize) -> (r: Self)
        ensures
            r@ == (ResolvedView { origin: origin_id@, destination: destination_id@, line: line as int }),
    {
        ResolvedBslCall { origin_id, destination_id, line }
    }

    /// Returns the calling procedure or function identifier.
    pub fn origin_id(&self) -> (r: &EntityId)
        ensures
            r@ == self@.origin,
    {
        &self.origin_id
    }

    /// Returns the called procedure or function identifier.
    pub fn destination_id(&self) -> (r: &EntityId)
        ensures
            r@ == self@.destination,
    {
        &self.destination_id
    }

    /// Returns the one-based source line.
    pub fn line(&self) -> (r: usize)
        ensures
            r as int == self@.line,
    {
        self.line
    }
}

/// Reason why a call could not be resolved locally.
#[derive(Debug, Clone, Copy, PartialEq, Eq, Structural)]
pub enum UnresolvedCallReason {
    /// The call is located outside a procedure or function.
    MissingSourceScope,
    /// The containing procedure or function was not found.
    SourceSymbolNotFound,
    /// The target name is qualified and requires cross-module resolution.
    QualifiedTarget,
    /// No local declaration matches the target name.
    TargetSymbolNotFound,
}

/// A call left unresolved: caller name, target, line and reason.
pub struct UnresolvedView<R> {
    pub source: Option<Seq<char>>,
    pub target: Seq<char>,
    pub line: int,
    pub reason: R,
}

/// A call that could not be resolved inside the current module.
#[derive(Debug, Clone, PartialEq, Eq)]
pub struct UnresolvedBslCall {
    source_name: Option<EntityName>,
    target_name: EntityName,
    line: usize,
    reason: UnresolvedCallReason,
}

impl View for UnresolvedBslCall {
    type V = UnresolvedView<UnresolvedCallReason>;

    closed spec fn view(&self) -> UnresolvedView<UnresolvedCallReason> {
        UnresolvedView {
            source: match self.source_name {
                Some(n) => Some(n@),
                None => None,
            },
            target: self.target_name@,
            line: self.line as int,
            reason: self.reason,
        }
    }
}

impl UnresolvedBslCall {
    /// Creates an unresolved call.
    pub fn new(
        source_name: Option<EntityName>,
        target_name: EntityName,
        line: usize,
        reason: UnresolvedCallReason,
    ) -> (r: Self)
        ensures
            r@ == (UnresolvedView {
                source: match source_name {
                    Some(n) => Some(n@),
                    None => None,
                },
                target: target_name@,
                line: line as int,
                reason,
            }),
    {
        UnresolvedBslCall { source_name, target_name, line, reason }
    }

    /// Returns the containing declaration name when available.
    pub fn source_name(&self) -> (r: Option<&EntityName>)
        ensures
            r is Some <==> self@.source is Some,
            r matches Some(n) ==> self@.source == Some(n@),
    {
        match &self.source_name {
            Some(n) => Some(n),
            None => None,
        }
    }

    /// Returns the unresolved target name.
    pub fn target_name(&self) -> (r: &EntityName)
        ensures
            r@ == self@.target,
    {
        &self.target_name
    }

    /// Returns the one-based source line.
    pub fn line(&self) -> (r: usize)
        ensures
            r as int == self@.line,
    {
        self.line
    }

    /// Returns the resolution failure reason.
    pub fn reason(&self) -> (r: UnresolvedCallReason)
        ensures
            r == self@.reason,
    {
        self.reason
    }
}

/// Outcome of resolving one call against the declarations `syms` of its module.
pub open spec fn resolve_local(syms: Seq<SymbolView>, c: CallView) -> Result<
    ResolvedView,
    UnresolvedView<UnresolvedCallReason>,
> {
    let names = symbol_names(syms);
    let unresolved = |reason: UnresolvedCallReason|
        UnresolvedView { source: c.source, target: c.target, line: c.line, reason };
    match c.source {
        None => Err(unresolved(UnresolvedCallReason::MissingSourceScope)),
        Some(src) => {
            let o = last_named(names, lowercase(src), syms.len() as int);
            if o < 0 {
                Err(unresolved(UnresolvedCallReason::SourceSymbolNotFound))
            } else if first_dot(c.target, 0) >= 0 {
                Err(unresolved(UnresolvedCallReason::QualifiedTarget))
            } else {
                let d = last_named(names, lowercase(c.target), syms.len() as int);
                if d < 0 {
                    Err(unresolved(UnresolvedCallReason::TargetSymbolNotFound))
                } else {
                    Ok(ResolvedView { origin: syms[o].id, destination: syms[d].id, line: c.line })
                }
            }
        },
    }
}

/// Resolved and unresolved calls, in call order.
pub open spec fn local_resolution(syms: Seq<SymbolView>, calls: Seq<CallView>) -> (
    Seq<ResolvedView>,
    Seq<UnresolvedView<UnresolvedCallReason>>,
)
    decreases calls.len(),
{
    if calls.len() == 0 {
        (Seq::empty(), Seq::empty())
    } else {
        let r = local_resolution(syms, calls.drop_last());
        match resolve_local(syms, calls.last()) {
            Ok(x) => (r.0.push(x), r.1),
            Err(y) => (r.0, r.1.push(y)),
        }
    }
}

/// Result of resolving calls inside one BSL module.
#[derive(Debug, Clone, PartialEq, Eq)]
pub struct BslCallResolution {
    resolved: Vec<ResolvedBslCall>,
    unresolved: Vec<UnresolvedBslCall>,
}

impl View for BslCallResolution {
    type V = (Seq<ResolvedView>, Seq<UnresolvedView<UnresolvedCallReason>>);

    closed spec fn view(&self) -> (Seq<ResolvedView>, Seq<UnresolvedView<UnresolvedCallReason>>) {
        (
            self.resolved@.map_values(|c: ResolvedBslCall| c@),
            self.unresolved@.map_values(|c: UnresolvedBslCall| c@),
        )
    }
}

impl Default for BslCallResolution {
    fn default() -> (r: Self)
        ensures
            r@.0.len() == 0 && r@.1.len() == 0,
    {
        BslCallResolution { resolved: Vec::new(), unresolved: Vec::new() }
    }
}

impl BslCallResolution {
    /// Creates a resolution result.
    pub fn new(resolved: Vec<ResolvedBslCall>, unresolved: Vec<UnresolvedBslCall>) -> (r: Self)
        ensures
            r@ == (
                resolved@.map_values(|c: ResolvedBslCall| c@),
                unresolved@.map_values(|c: UnresolvedBslCall| c@),
            ),
    {
        BslCallResolution { resolved, unresolved }
    }

    /// Returns locally resolved calls.
    pub fn resolved(&self) -> (r: &[ResolvedBslCall])
        ensures
            r@.map_values(|c: ResolvedBslCall| c@) == self@.0,
    {
        self.resolved.as_slice()
    }

    /// Returns calls requiring another resolution stage.
    pub fn unresolved(&self) -> (r: &[UnresolvedBslCall])
        ensures
            r@.map_values(|c: UnresolvedBslCall| c@) == self@.1,
    {
        self.unresolved.as_slice()
    }
}

/// The views of calls.
pub open spec fn call_seq(v: Seq<BslCall>) -> Seq<CallView> {
    v.map_values(|c: BslCall| c@)
}

/// Resolves calls against declarations from the same BSL module.
pub trait BslCallResolver {
    /// Resolves local calls.
    fn resolve(&self, symbols: &[BslSymbol], calls: &[BslCall]) -> (r: BslCallResolution);
}

/// Case-insensitive resolver for declarations within one module.
#[derive(Debug, Clone, Copy)]
pub struct LocalBslCallResolver;

impl BslCallResolver for LocalBslCallResolver {
    fn resolve(&self, symbols: &[BslSymbol], calls: &[BslCall]) -> (r: BslCallResolution)
        ensures
            r@ == local_resolution(symbol_seq(symbols@), call_seq(calls@)),
    {
        let ghost syms = symbol_seq(symbols@);
        let mut resolved: Vec<ResolvedBslCall> = Vec::new();
        let mut unresolved: Vec<UnresolvedBslCall> = Vec::new();
        let mut i: usize = 0;
        assert(call_seq(calls@).take(0) =~= Seq::<CallView>::empty());
        while i < calls.len()
            invariant
                i <= calls@.len(),
                syms == symbol_seq(symbols@),
                (
                    resolved@.map_values(|c: ResolvedBslCall| c@),
                    unresolved@.map_values(|c: UnresolvedBslCall| c@),
                ) == local_resolution(syms, call_seq(calls@).take(i as int)),
            decreases calls@.len() - i,
        {
            let call = &calls[i];
            assert(call_seq(calls@).take(i + 1).drop_last() == call_seq(calls@).take(i as int));
            assert(call_seq(calls@).take(i + 1).last() == call@);
            let ghost before_r = resolved@;
            let ghost before_u = unresolved@;
            let outcome = resolve_one(symbols, call);
            match outcome {
                Ok(x) => {
                    resolved.push(x);
                    assert(resolved@.map_values(|c: ResolvedBslCall| c@) == before_r.map_values(
                        |c: ResolvedBslCall| c@,
                    ).push(resolved@.last()@));
                },
                Err(y) => {
                    unresolved.push(y);
                    assert(unresolved@.map_values(|c: UnresolvedBslCall| c@) == before_u.map_values(
                        |c: UnresolvedBslCall| c@,
                    ).push(unresolved@.last()@));
                },
            }
            i = i + 1;
        }
        assert(call_seq(calls@).take(calls@.len() as int) == call_seq(calls@));
        BslCallResolution { resolved, unresolved }
    }
}

/// Resolves one call; the result matches `resolve_local`.
fn resolve_one(symbols: &[BslSymbol], call: &BslCall) -> (r: Result<ResolvedBslCall, UnresolvedBslCall>)
    ensures
        match r {
            Ok(x) => resolve_local(symbol_seq(symbols@), call@) == Ok::<
                ResolvedView,
                UnresolvedView<UnresolvedCallReason>,
            >(x@),
            Err(y) => resolve_local(symbol_seq(symbols@), call@) == Err::<
                ResolvedView,
                UnresolvedView<UnresolvedCallReason>,
            >(y@),
        },
{
    let target = call.target_symbol();
    let source_name = match call.source_symbol() {
        None => {
            return Err(
                UnresolvedBslCall::new(
                    None,
                    target.duplicate(),
                    call.line(),
                    UnresolvedCallReason::MissingSourceScope,
                ),
            );
        },
        Some(n) => n,
    };
    let origin = match find_symbol(symbols, &bsl_name_key(source_name.as_str())) {
        None => {
            return Err(
                UnresolvedBslCall::new(
                    Some(source_name.duplicate()),
                    target.duplicate(),
                    call.line(),
                    UnresolvedCallReason::SourceSymbolNotFound,
                ),
            );
        },
        Some(o) => o,
    };
    let target_chars = crate::text::chars_of(target.as_str());
    if find_first_dot(&target_chars).is_some() {
        return Err(
            UnresolvedBslCall::new(
                Some(source_name.duplicate()),
                target.duplicate(),
                call.line(),
                UnresolvedCallReason::QualifiedTarget,
            ),
        );
    }
    let destination = match find_symbol(symbols, &bsl_name_key(target.as_str())) {
        None => {
            return Err(
                UnresolvedBslCall::new(
                    Some(source_name.duplicate()),
                    target.duplicate(),
                    call.line(),
                    UnresolvedCallReason::TargetSymbolNotFound,
                ),
            );
        },
        Some(d) => d,
    };
    assert(symbol_seq(symbols@)[origin as int] == symbols@[origin as int]@);
    assert(symbol_seq(symbols@)[destination as int] == symbols@[destination as int]@);
    Ok(
        ResolvedBslCall::new(
            symbols[origin].id().duplicate(),
            symbols[destination].id().duplicate(),
            call.line(),
        ),
    )
}

} // verus!

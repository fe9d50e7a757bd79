//! Cross-module resolution of qualified `Module.Symbol()` BSL calls.
//!
//! Module and symbol names are compared through their lowercase keys; when
//! several share a key, the last one wins. Only exported targets resolve.

use vstd::prelude::*;

use crate::bsl::calls::{find_first_dot, first_dot, BslCall, CallView};
use crate::bsl::resolution::{
    call_seq, find_symbol, last_named, symbol_names, symbol_seq, ResolvedView, UnresolvedView,
};
use crate::bsl::{bsl_name_key, lowercase, BslSymbol, SymbolView};
use crate::entity::{EntityId, EntityName};
use crate::text::{chars_of, string_of_range};

verus! {

/// Abstract value of a module's symbols: identifier, name and declarations.
pub struct ModuleSymbolsView {
    pub id: Seq<char>,
    pub name: Seq<char>,
    pub symbols: Seq<SymbolView>,
}

/// Symbols belonging to one BSL module.
#[derive(Debug, Clone, PartialEq, Eq)]
pub struct BslModuleSymbols {
    module_id: EntityId,
    module_name: EntityName,
    symbols: Vec<BslSymbol>,
}

impl View for BslModuleSymbols {
    type V = ModuleSymbolsView;

    closed spec fn view(&self) -> ModuleSymbolsView {
        ModuleSymbolsView {
            id: self.module_id@,
            name: self.module_name@,
            symbols: symbol_seq(self.symbols@),
        }
    }
}

impl BslModuleSymbols {
    /// Creates a module symbol collection.
    pub fn new(module_id: EntityId, module_name: EntityName, symbols: Vec<BslSymbol>) -> (r: Self)
        ensures
            r@ == (ModuleSymbolsView {
                id: module_id@,
                name: module_name@,
                symbols: symbol_seq(symbols@),
            }),
    {
        BslModuleSymbols { module_id, module_name, symbols }
    }

    /// Returns the module identifier.
    pub fn module_id(&self) -> (r: &EntityId)
        ensures
            r@ == self@.id,
    {
        &self.module_id
    }

    /// Returns the module name.
    pub fn module_name(&self) -> (r: &EntityName)
        ensures
            r@ == self@.name,
    {
        &self.module_name
    }

    /// Returns declarations from the module.
    pub fn symbols(&self) -> (r: &[BslSymbol])
        ensures
            symbol_seq(r@) == self@.symbols,
    {
        self.symbols.as_slice()
    }
}

/// A qualified call resolved between symbols from different modules.
#[derive(Debug, Clone, PartialEq, Eq)]
pub struct ResolvedCrossModuleCall {
    origin_id: EntityId,
    destination_id: EntityId,
    line: usize,
}

impl View for ResolvedCrossModuleCall {
    type V = ResolvedView;

    closed spec fn view(&self) -> ResolvedView {
        ResolvedView { origin: self.origin_id@, destination: self.destination_id@, line: self.line as int }
    }
}

impl ResolvedCrossModuleCall {
    /// Creates a resolved cross-module call.
    pub fn new(origin_id: EntityId, destination_id: EntityId, line: usize) -> (r: Self)
        ensures
            r@ == (ResolvedView { origin: origin_id@, destination: destination_id@, line: line as int }),
    {
        ResolvedCrossModuleCall { origin_id, destination_id, line }
    }

    /// Returns the calling symbol identifier.
    pub fn origin_id(&self) -> (r: &EntityId)
        ensures
            r@ == self@.origin,
    {
        &self.origin_id
    }

    /// Returns the called symbol identifier.
    pub fn destination_id(&self) -> (r: &EntityId)
        ensures
            r@ == self@.destination,
    {
        &self.destination_id
    }

    /// Returns the source line.
    pub fn line(&self) -> (r: usize)
        ensures
            r as int == self@.line,
    {
        self.line
    }
}

/// Reason why a qualified call could not be resolved.
#[derive(Debug, Clone, Copy, PartialEq, Eq, Structural)]
pub enum UnresolvedCrossModuleCallReason {
    /// The call does not have a containing procedure or function.
    MissingSourceScope,
    /// The containing declaration was not found in the current module.
    SourceSymbolNotFound,
    /// The target is not a supported `Module.Symbol` expression.
    InvalidQualifiedTarget,
    /// The requested target module was not found.
    TargetModuleNotFound,
    /// The requested declaration was not found in the target module.
    TargetSymbolNotFound,
    /// The target declaration exists but is not exported.
    TargetSymbolNotExported,
}

/// A qualified call that could not be resolved.
#[derive(Debug, Clone, PartialEq, Eq)]
pub struct UnresolvedCrossModuleCall {
    source_name: Option<EntityName>,
    target_name: EntityName,
    line: usize,
    reason: UnresolvedCrossModuleCallReason,
}

impl View for UnresolvedCrossModuleCall {
    type V = UnresolvedView<UnresolvedCrossModuleCallReason>;

    closed spec fn view(&self) -> UnresolvedView<UnresolvedCrossModuleCallReason> {
        UnresolvedView {
            source: match self.source_name {
                Some(n) => Some(n@),
                None => None,
            },
            target: self.target_name@,
            line: self.line as int,
            reason: self.reason,
        }
    }
}

impl UnresolvedCrossModuleCall {
    /// Creates an unresolved cross-module call.
    pub fn new(
        source_name: Option<EntityName>,
        target_name: EntityName,
        line: usize,
        reason: UnresolvedCrossModuleCallReason,
    ) -> (r: Self)
        ensures
            r@ == (UnresolvedView {
                source: match source_name {
                    Some(n) => Some(n@),
                    None => None,
                },
                target: target_name@,
                line: line as int,
                reason,
            }),
    {
        UnresolvedCrossModuleCall { source_name, target_name, line, reason }
    }

    /// Returns the containing declaration name when available.
    pub fn source_name(&self) -> (r: Option<&EntityName>)
        ensures
            r is Some <==> self@.source is Some,
            r matches Some(n) ==> self@.source == Some(n@),
    {
        match &self.source_name {
            Some(n) => Some(n),
            None => None,
        }
    }

    /// Returns the unresolved qualified target.
    pub fn target_name(&self) -> (r: &EntityName)
        ensures
            r@ == self@.target,
    {
        &self.target_name
    }

    /// Returns the source line.
    pub fn line(&self) -> (r: usize)
        ensures
            r as int == self@.line,
    {
        self.line
    }

    /// Returns the failure reason.
    pub fn reason(&self) -> (r: UnresolvedCrossModuleCallReason)
        ensures
            r == self@.reason,
    {
        self.reason
    }
}

/// Result of resolving qualified calls.
#[derive(Debug, Clone, PartialEq, Eq)]
pub struct CrossModuleCallResolution {
    resolved: Vec<ResolvedCrossModuleCall>,
    unresolved: Vec<UnresolvedCrossModuleCall>,
}

impl View for CrossModuleCallResolution {
    type V = (Seq<ResolvedView>, Seq<UnresolvedView<UnresolvedCrossModuleCallReason>>);

    closed spec fn view(&self) -> (Seq<ResolvedView>, Seq<UnresolvedView<UnresolvedCrossModuleCallReason>>) {
        (
            self.resolved@.map_values(|c: ResolvedCrossModuleCall| c@),
            self.unresolved@.map_values(|c: UnresolvedCrossModuleCall| c@),
        )
    }
}

impl Default for CrossModuleCallResolution {
    fn default() -> (r: Self)
        ensures
            r@.0.len() == 0 && r@.1.len() == 0,
    {
        CrossModuleCallResolution { resolved: Vec::new(), unresolved: Vec::new() }
    }
}

impl CrossModuleCallResolution {
    /// Creates a cross-module resolution result.
    pub fn new(resolved: Vec<ResolvedCrossModuleCall>, unresolved: Vec<UnresolvedCrossModuleCall>) -> (r:
        Self)
        ensures
            r@ == (
                resolved@.map_values(|c: ResolvedCrossModuleCall| c@),
                unresolved@.map_values(|c: UnresolvedCrossModuleCall| c@),
            ),
    {
        CrossModuleCallResolution { resolved, unresolved }
    }

    /// Returns resolved calls.
    pub fn resolved(&self) -> (r: &[ResolvedCrossModuleCall])
        ensures
            r@.map_values(|c: ResolvedCrossModuleCall| c@) == self@.0,
    {
        self.resolved.as_slice()
    }

    /// Returns unresolved calls.
    pub fn unresolved(&self) -> (r: &[UnresolvedCrossModuleCall])
        ensures
            r@.map_values(|c: UnresolvedCrossModuleCall| c@) == self@.1,
    {
        self.unresolved.as_slice()
    }
}

/// Splits `Module.Symbol` into its two non-empty parts; `None` when either part
/// is empty or the symbol part holds another dot.
pub open spec fn split_qualified(t: Seq<char>) -> Option<(Seq<char>, Seq<char>)> {
    let d = first_dot(t, 0);
    if d < 0 {
        None
    } else {
        let module = t.take(d);
        let symbol = t.skip(d + 1);
        if module.len() == 0 || symbol.len() == 0 || first_dot(symbol, 0) >= 0 {
            None
        } else {
            Some((module, symbol))
        }
    }
}

/// The names of `modules`.
pub open spec fn module_names(modules: Seq<ModuleSymbolsView>) -> Seq<Seq<char>> {
    modules.map_values(|m: ModuleSymbolsView| m.name)
}

/// Outcome of resolving one call from the module with declarations `current`
/// against `modules`; `None` for a target without a dot, which is skipped.
pub open spec fn resolve_cross(
    current: Seq<SymbolView>,
    modules: Seq<ModuleSymbolsView>,
    c: CallView,
) -> Option<Result<ResolvedView, UnresolvedView<UnresolvedCrossModuleCallReason>>> {
    let unresolved = |reason: UnresolvedCrossModuleCallReason|
        UnresolvedView { source: c.source, target: c.target, line: c.line, reason };
    if first_dot(c.target, 0) < 0 {
        None
    } else {
        Some(
            match c.source {
                None => Err(unresolved(UnresolvedCrossModuleCallReason::MissingSourceScope)),
                Some(src) => {
                    let o = last_named(symbol_names(current), lowercase(src), current.len() as int);
                    if o < 0 {
                        Err(unresolved(UnresolvedCrossModuleCallReason::SourceSymbolNotFound))
                    } else {
                        match split_qualified(c.target) {
                            None => Err(unresolved(UnresolvedCrossModuleCallReason::InvalidQualifiedTarget)),
                            Some(parts) => {
                                let mi = last_named(
                                    module_names(modules),
                                    lowercase(parts.0),
                                    modules.len() as int,
                                );
                                if mi < 0 {
                                    Err(unresolved(UnresolvedCrossModuleCallReason::TargetModuleNotFound))
                                } else {
                                    let ts = modules[mi].symbols;
                                    let d = last_named(symbol_names(ts), lowercase(parts.1), ts.len() as int);
                                    if d < 0 {
                                        Err(unresolved(UnresolvedCrossModuleCallReason::TargetSymbolNotFound))
                                    } else if !ts[d].exported {
                                        Err(unresolved(UnresolvedCrossModuleCallReason::TargetSymbolNotExported))
                                    } else {
                                        Ok(ResolvedView { origin: current[o].id, destination: ts[d].id, line: c.line })
                                    }
                                }
                            },
                        }
                    }
                },
            },
        )
    }
}

/// Resolved and unresolved qualified calls, in call order.
pub open spec fn cross_resolution(
    current: Seq<SymbolView>,
    modules: Seq<ModuleSymbolsView>,
    calls: Seq<CallView>,
) -> (Seq<ResolvedView>, Seq<UnresolvedView<UnresolvedCrossModuleCallReason>>)
    decreases calls.len(),
{
    if calls.len() == 0 {
        (Seq::empty(), Seq::empty())
    } else {
        let r = cross_resolution(current, modules, calls.drop_last());
        match resolve_cross(current, modules, calls.last()) {
            None => r,
            Some(Ok(x)) => (r.0.push(x), r.1),
            Some(Err(y)) => (r.0, r.1.push(y)),
        }
    }
}

/// The views of modules.
pub open spec fn module_seq(v: Seq<BslModuleSymbols>) -> Seq<ModuleSymbolsView> {
    v.map_values(|m: BslModuleSymbols| m@)
}

/// Returns the index of the last module whose name key is `key`.
fn find_module(modules: &[BslModuleSymbols], key: &String) -> (r: Option<usize>)
    ensures
        match r {
            Some(i) => last_named(module_names(module_seq(modules@)), key@, modules@.len() as int)
                == i as int && i < modules@.len(),
            None => last_named(module_names(module_seq(modules@)), key@, modules@.len() as int)
                == -1,
        },
{
    let ghost names = module_names(module_seq(modules@));
    let mut k = modules.len();
    while k > 0
        invariant
            k <= modules@.len(),
            names == module_names(module_seq(modules@)),
            last_named(names, key@, k as int) == last_named(names, key@, modules@.len() as int),
        decreases k,
    {
        let candidate = bsl_name_key(modules[k - 1].module_name().as_str());
        assert(names[k - 1] == modules@[k - 1]@.name);
        if candidate == *key {
            return Some(k - 1);
        }
        k = k - 1;
    }
    None
}

/// Resolves one qualified call; the result matches `resolve_cross`.
fn resolve_one_cross(
    current: &BslModuleSymbols,
    modules: &[BslModuleSymbols],
    call: &BslCall,
) -> (r: Option<Result<ResolvedCrossModuleCall, UnresolvedCrossModuleCall>>)
    ensures
        match r {
            None => resolve_cross(current@.symbols, module_seq(modules@), call@) is None,
            Some(Ok(x)) => resolve_cross(current@.symbols, module_seq(modules@), call@) == Some(
                Ok::<ResolvedView, UnresolvedView<UnresolvedCrossModuleCallReason>>(x@),
            ),
            Some(Err(y)) => resolve_cross(current@.symbols, module_seq(modules@), call@) == Some(
                Err::<ResolvedView, UnresolvedView<UnresolvedCrossModuleCallReason>>(y@),
            ),
        },
{
    let target = call.target_symbol();
    let target_chars = chars_of(target.as_str());
    let target_len = target_chars.len();
    let dot = match find_first_dot(&target_chars) {
        None => {
            return None;
        },
        Some(d) => d,
    };
    let source_name = match call.source_symbol() {
        None => {
            return Some(
                Err(
                    UnresolvedCrossModuleCall::new(
                        None,
                        target.duplicate(),
                        call.line(),
                        UnresolvedCrossModuleCallReason::MissingSourceScope,
                    ),
                ),
            );
        },
        Some(n) => n,
    };
    let symbols = current.symbols();
    let origin = match find_symbol(symbols, &bsl_name_key(source_name.as_str())) {
        None => {
            return Some(
                Err(
                    UnresolvedCrossModuleCall::new(
                        Some(source_name.duplicate()),
                        target.duplicate(),
                        call.line(),
                        UnresolvedCrossModuleCallReason::SourceSymbolNotFound,
                    ),
                ),
            );
        },
        Some(o) => o,
    };
    let module_part = string_of_range(&target_chars, 0, dot);
    let symbol_part = string_of_range(&target_chars, dot + 1, target_len);
    let symbol_chars = chars_of(symbol_part.as_str());
    assert(module_part@ == target@.take(dot as int));
    assert(symbol_part@ == target@.skip(dot + 1));
    if dot == 0 || dot + 1 == target_len || find_first_dot(&symbol_chars).is_some() {
        return Some(
            Err(
                UnresolvedCrossModuleCall::new(
                    Some(source_name.duplicate()),
                    target.duplicate(),
                    call.line(),
                    UnresolvedCrossModuleCallReason::InvalidQualifiedTarget,
                ),
            ),
        );
    }
    let mi = match find_module(modules, &bsl_name_key(module_part.as_str())) {
        None => {
            return Some(
                Err(
                    UnresolvedCrossModuleCall::new(
                        Some(source_name.duplicate()),
                        target.duplicate(),
                        call.line(),
                        UnresolvedCrossModuleCallReason::TargetModuleNotFound,
                    ),
                ),
            );
        },
        Some(m) => m,
    };
    assert(module_seq(modules@)[mi as int] == modules@[mi as int]@);
    let target_symbols = modules[mi].symbols();
    let d = match find_symbol(target_symbols, &bsl_name_key(symbol_part.as_str())) {
        None => {
            return Some(
                Err(
                    UnresolvedCrossModuleCall::new(
                        Some(source_name.duplicate()),
                        target.duplicate(),
                        call.line(),
                        UnresolvedCrossModuleCallReason::TargetSymbolNotFound,
                    ),
                ),
            );
        },
        Some(d) => d,
    };
    assert(symbol_seq(target_symbols@)[d as int] == target_symbols@[d as int]@);
    assert(symbol_seq(symbols@)[origin as int] == symbols@[origin as int]@);
    if !target_symbols[d].is_exported() {
        return Some(
            Err(
                UnresolvedCrossModuleCall::new(
                    Some(source_name.duplicate()),
                    target.duplicate(),
                    call.line(),
                    UnresolvedCrossModuleCallReason::TargetSymbolNotExported,
                ),
            ),
        );
    }
    Some(
        Ok(
            ResolvedCrossModuleCall::new(
                symbols[origin].id().duplicate(),
                target_symbols[d].id().duplicate(),
                call.line(),
            ),
        ),
    )
}

/// Resolves qualified calls between BSL modules.
pub trait CrossModuleCallResolver {
    /// Resolves calls originating from `current_module`.
    fn resolve_cross_module_calls(
        &self,
        current_module: &BslModuleSymbols,
        available_modules: &[BslModuleSymbols],
        calls: &[BslCall],
    ) -> (r: CrossModuleCallResolution);
}

/// Case-insensitive resolver for `Module.Symbol()` calls.
#[derive(Debug, Clone, Copy)]
pub struct QualifiedBslCallResolver;

impl CrossModuleCallResolver for QualifiedBslCallResolver {
    fn resolve_cross_module_calls(
        &self,
        current_module: &BslModuleSymbols,
        available_modules: &[BslModuleSymbols],
        calls: &[BslCall],
    ) -> (r: CrossModuleCallResolution)
        ensures
            r@ == cross_resolution(
                current_module@.symbols,
                module_seq(available_modules@),
                call_seq(calls@),
            ),
    {
        let ghost cur = current_module@.symbols;
        let ghost mods = module_seq(available_modules@);
        let mut resolved: Vec<ResolvedCrossModuleCall> = Vec::new();
        let mut unresolved: Vec<UnresolvedCrossModuleCall> = Vec::new();
        let mut i: usize = 0;
        assert(call_seq(calls@).take(0) =~= Seq::<CallView>::empty());
        while i < calls.len()
            invariant
                i <= calls@.len(),
                cur == current_module@.symbols,
                mods == module_seq(available_modules@),
                (
                    resolved@.map_values(|c: ResolvedCrossModuleCall| c@),
                    unresolved@.map_values(|c: UnresolvedCrossModuleCall| c@),
                ) == cross_resolution(cur, mods, call_seq(calls@).take(i as int)),
            decreases calls@.len() - i,
        {
            let call = &calls[i];
            assert(call_seq(calls@).take(i + 1).drop_last() == call_seq(calls@).take(i as int));
            assert(call_seq(calls@).take(i + 1).last() == call@);
            let ghost before_r = resolved@;
            let ghost before_u = unresolved@;
            match resolve_one_cross(current_module, available_modules, call) {
                None => {},
                Some(Ok(x)) => {
                    resolved.push(x);
                    assert(resolved@.map_values(|c: ResolvedCrossModuleCall| c@) == before_r.map_values(
                        |c: ResolvedCrossModuleCall| c@,
                    ).push(resolved@.last()@));
                },
                Some(Err(y)) => {
                    unresolved.push(y);
                    assert(unresolved@.map_values(|c: UnresolvedCrossModuleCall| c@)
                        == before_u.map_values(|c: UnresolvedCrossModuleCall| c@).push(
                        unresolved@.last()@,
                    ));
                },
            }
            i = i + 1;
        }
        assert(call_seq(calls@).take(calls@.len() as int) == call_seq(calls@));
        CrossModuleCallResolution { resolved, unresolved }
    }
}

} // verus!

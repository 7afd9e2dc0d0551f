//! The top-level driver: imports, then procedure declarations, then at most one
//! `begin ... end` body. With a body the unit is a program, without one a module.
use vstd::prelude::*;
use crate::ast::{
    ModuleAst, ModuleView, Node, NodeView, ProcedureAst, ProcedureView, ProgramAst, ProgramView,
    nodes_view, procs_view,
};
use crate::errors::{ParseErrorKind, ParsingError};
use crate::parser::{Scope, ScopeView, body_of, call_of, bounded_operand, find_last_separator, is_end, last_separator, parse_block, parse_bounded, qualified, qualify, tokens_wf, lemma_separator_in_range, chars_between, error_at};
use crate::text::{find_word, index_of, is_word, lemma_index_of, string_of, words_view};
use crate::tokens::{Token, lex, lexed_docs, lexed_parts, token_parts, tokenize, tokens_view};
use crate::ast::{InstructionView, OP_EXEC_LOCAL, Operand, instruction_view, docs_view, module_rules, names_unique, program_rules, nodes_eq, procedure_eq};

verus! {

/// What has been read of a unit so far.
pub struct UnitView {
    pub procs: Seq<ProcedureView>,
    pub aliases: Seq<Seq<char>>,
    pub paths: Seq<Seq<char>>,
    pub body: Option<Seq<NodeView>>,
}

pub open spec fn empty_unit() -> UnitView {
    UnitView { procs: Seq::empty(), aliases: Seq::empty(), paths: Seq::empty(), body: None }
}

/// The names of the procedures, in declaration order.
pub open spec fn proc_names(procs: Seq<ProcedureView>) -> Seq<Seq<char>> {
    procs.map_values(|p: ProcedureView| p.name)
}

/// What a body inside the unit can call.
pub open spec fn unit_scope(u: UnitView) -> ScopeView {
    ScopeView { locals: proc_names(u.procs), aliases: u.aliases, paths: u.paths }
}

/// The documentation attached to each token.
pub open spec fn token_docs(ts: Seq<Token>) -> Seq<Option<Seq<char>>> {
    ts.map_values(|t: Token| docs_view(t.docs))
}

/// The path that the parts after `use` name, joined by `::`.
pub open spec fn join_path(parts: Seq<Seq<char>>) -> Seq<char>
    decreases parts.len(),
{
    if parts.len() == 0 {
        Seq::empty()
    } else if parts.len() == 1 {
        parts[0]
    } else {
        qualified(join_path(parts.drop_last()), parts.last())
    }
}

/// The last segment of a path: the alias that `use` binds.
pub open spec fn alias_of(path: Seq<char>) -> Seq<char> {
    let s = last_separator(path);
    if s < 0 {
        path
    } else {
        path.skip(s + 2)
    }
}

/// The name and the number of local slots of a `proc` or `export` header.
pub open spec fn header_of(t: Seq<Seq<char>>) -> Result<(Seq<char>, u16), ParseErrorKind> {
    if t.len() < 2 || t.len() > 3 || t[1].len() == 0 {
        Err(ParseErrorKind::MalformedDeclaration)
    } else if t.len() == 2 {
        Ok((t[1], 0u16))
    } else {
        match bounded_operand(t[2], 0, u16::MAX as nat) {
            Ok(n) => Ok((t[1], n as u16)),
            Err(e) => Err(e),
        }
    }
}

/// Reads the unit from token `pos` on, after what `u` holds.
pub open spec fn unit_from(
    toks: Seq<Seq<Seq<char>>>,
    docs: Seq<Option<Seq<char>>>,
    pos: int,
    u: UnitView,
) -> Result<UnitView, ParseErrorKind>
    decreases toks.len() - pos,
{
    if pos < 0 || pos >= toks.len() {
        Ok(u)
    } else if u.body is Some {
        Err(ParseErrorKind::UnexpectedToken)
    } else {
        let t = toks[pos];
        let m = t[0];
        if m == "use"@ {
            if u.procs.len() > 0 {
                Err(ParseErrorKind::MisplacedImport)
            } else if t.len() < 2 {
                Err(ParseErrorKind::MissingParameter)
            } else {
                let path = join_path(t.skip(1));
                let alias = alias_of(path);
                let a = index_of(u.aliases, alias);
                if a < 0 {
                    unit_from(
                        toks,
                        docs,
                        pos + 1,
                        UnitView {
                            procs: u.procs,
                            aliases: u.aliases.push(alias),
                            paths: u.paths.push(path),
                            body: u.body,
                        },
                    )
                } else if u.paths[a] == path {
                    unit_from(toks, docs, pos + 1, u)
                } else {
                    Err(ParseErrorKind::ConflictingImport)
                }
            }
        } else if m == "proc"@ || m == "export"@ {
            match header_of(t) {
                Err(e) => Err(e),
                Ok((name, locals)) => if index_of(proc_names(u.procs), name) >= 0 {
                    Err(ParseErrorKind::DuplicateProcedure)
                } else if u.procs.len() > u16::MAX {
                    Err(ParseErrorKind::TooManyProcedures)
                } else {
                    match body_of(toks, unit_scope(u), pos + 1, Seq::empty()) {
                        Err(e) => Err(e),
                        Ok((b, p)) => if !(pos < p < toks.len()) {
                            Err(ParseErrorKind::UnclosedBlock)
                        } else if !is_end(toks[p]) {
                            Err(ParseErrorKind::UnexpectedToken)
                        } else {
                            let decl = ProcedureView {
                                name,
                                docs: if m == "export"@ {
                                    docs[pos]
                                } else {
                                    None
                                },
                                is_export: m == "export"@,
                                num_locals: locals,
                                body: b,
                            };
                            unit_from(
                                toks,
                                docs,
                                p + 1,
                                UnitView {
                                    procs: u.procs.push(decl),
                                    aliases: u.aliases,
                                    paths: u.paths,
                                    body: u.body,
                                },
                            )
                        },
                    }
                },
            }
        } else if m == "begin"@ {
            if t.len() != 1 {
                Err(ParseErrorKind::UnexpectedToken)
            } else {
                match body_of(toks, unit_scope(u), pos + 1, Seq::empty()) {
                    Err(e) => Err(e),
                    Ok((b, p)) => if !(pos < p < toks.len()) {
                        Err(ParseErrorKind::UnclosedBlock)
                    } else if !is_end(toks[p]) {
                        Err(ParseErrorKind::UnexpectedToken)
                    } else {
                        unit_from(
                            toks,
                            docs,
                            p + 1,
                            UnitView { procs: u.procs, aliases: u.aliases, paths: u.paths, body: Some(b) },
                        )
                    },
                }
            }
        } else {
            Err(ParseErrorKind::UnexpectedToken)
        }
    }
}

/// The unit that the tokens hold.
pub open spec fn unit_of(toks: Seq<Seq<Seq<char>>>, docs: Seq<Option<Seq<char>>>) -> Result<
    UnitView,
    ParseErrorKind,
> {
    unit_from(toks, docs, 0, empty_unit())
}

pub open spec fn has_export(procs: Seq<ProcedureView>) -> bool {
    exists|i: int| 0 <= i < procs.len() && (#[trigger] procs[i]).is_export
}

/// The program that the tokens hold: a unit with a non-empty body and no exported
/// procedure.
pub open spec fn program_of(toks: Seq<Seq<Seq<char>>>, docs: Seq<Option<Seq<char>>>) -> Result<
    ProgramView,
    ParseErrorKind,
> {
    match unit_of(toks, docs) {
        Err(e) => Err(e),
        Ok(u) => if has_export(u.procs) {
            Err(ParseErrorKind::ExportInProgram)
        } else {
            match u.body {
                None => Err(ParseErrorKind::MissingBody),
                Some(b) => if b.len() == 0 {
                    Err(ParseErrorKind::MissingBody)
                } else {
                    Ok(ProgramView { body: b, procs: u.procs })
                },
            }
        },
    }
}

/// The module that the tokens hold: a unit without a body.
pub open spec fn module_of(toks: Seq<Seq<Seq<char>>>, docs: Seq<Option<Seq<char>>>) -> Result<
    ModuleView,
    ParseErrorKind,
> {
    match unit_of(toks, docs) {
        Err(e) => Err(e),
        Ok(u) => if u.body is Some {
            Err(ParseErrorKind::BodyInModule)
        } else {
            Ok(ModuleView { procs: u.procs })
        },
    }
}

/// The unit read so far, as executable values.
pub struct UnitState {
    pub procs: Vec<ProcedureAst>,
    pub scope: Scope,
    pub body: Option<Vec<Node>>,
}

pub open spec fn body_view(b: Option<Vec<Node>>) -> Option<Seq<NodeView>> {
    match b {
        Some(ns) => Some(nodes_view(ns@)),
        None => None,
    }
}

impl View for UnitState {
    type V = UnitView;

    open spec fn view(&self) -> UnitView {
        UnitView {
            procs: procs_view(self.procs@),
            aliases: self.scope@.aliases,
            paths: self.scope@.paths,
            body: body_view(self.body),
        }
    }
}

/// The scope's local names are the procedures' names, in order.
pub open spec fn state_wf(st: UnitState) -> bool {
    &&& st.scope@.locals == proc_names(procs_view(st.procs@))
    &&& st.scope@.aliases.len() == st.scope@.paths.len()
    &&& st.procs@.len() <= u16::MAX + 1
}

/// The path that the parts after `use` name.
fn path_of(t: &Vec<Vec<char>>) -> (r: Vec<char>)
    requires
        t@.len() >= 2,
    ensures
        r@ == join_path(words_view(t@).skip(1)),
{
    let ghost w = words_view(t@).skip(1);
    let mut r = chars_between(&t[1], 0, t[1].len());
    assert(w.take(1).drop_last().len() == 0);
    assert(r@ == join_path(w.take(1)));
    let mut i: usize = 2;
    while i < t.len()
        invariant
            2 <= i <= t@.len(),
            w == words_view(t@).skip(1),
            r@ == join_path(w.take(i - 1)),
        decreases t@.len() - i,
    {
        assert(w.take(i as int).drop_last() == w.take(i - 1));
        assert(w.take(i as int).last() == t@[i as int]@);
        r = qualify(&r, &t[i]);
        i = i + 1;
    }
    assert(w.take(i - 1) == w);
    r
}

/// The last segment of a path.
fn alias_for(path: &Vec<char>) -> (r: Vec<char>)
    ensures
        r@ == alias_of(path@),
{
    match find_last_separator(path) {
        None => chars_between(path, 0, path.len()),
        Some(s) => {
            proof {
                lemma_separator_in_range(path@, path@.len() as int);
            }
            assert(s + 2 <= path.len());
            chars_between(path, s + 2, path.len())
        },
    }
}

fn copy_docs(d: &Option<String>) -> (r: Option<String>)
    ensures
        docs_view(r) == docs_view(*d),
{
    match d {
        Some(s) => Some(s.clone()),
        None => None,
    }
}

pub open spec fn unit_agrees(r: Result<UnitState, ParsingError>, s: Result<UnitView, ParseErrorKind>) -> bool {
    match (r, s) {
        (Ok(st), Ok(u)) => st@ == u && state_wf(st),
        (Err(e), Err(k)) => e.kind == k,
        _ => false,
    }
}

/// Reads the whole unit: imports, declarations and the body, if any.
pub fn parse_unit(toks: &Vec<Token>) -> (r: Result<UnitState, ParsingError>)
    requires
        tokens_wf(token_parts(toks@)),
    ensures
        unit_agrees(r, unit_of(token_parts(toks@), token_docs(toks@))),
{
    let ghost tp = token_parts(toks@);
    let ghost td = token_docs(toks@);
    let mut st = UnitState {
        procs: Vec::new(),
        scope: Scope { locals: Vec::new(), aliases: Vec::new(), paths: Vec::new() },
        body: None,
    };
    assert(procs_view(st.procs@) =~= Seq::<ProcedureView>::empty());
    assert(words_view(st.scope.locals@) =~= Seq::<Seq<char>>::empty());
    assert(words_view(st.scope.aliases@) =~= Seq::<Seq<char>>::empty());
    assert(words_view(st.scope.paths@) =~= Seq::<Seq<char>>::empty());
    assert(proc_names(procs_view(st.procs@)) =~= Seq::<Seq<char>>::empty());
    assert(st@ == empty_unit());
    let mut i: usize = 0;
    loop
        invariant
            i <= toks@.len(),
            tp == token_parts(toks@),
            td == token_docs(toks@),
            tokens_wf(tp),
            state_wf(st),
            unit_of(tp, td) == unit_from(tp, td, i as int, st@),
        decreases toks@.len() - i,
    {
        if i >= toks.len() {
            return Ok(st);
        }
        if st.body.is_some() {
            return Err(error_at(toks, i, ParseErrorKind::UnexpectedToken));
        }
        let t = &toks[i].parts;
        assert(tp[i as int] == words_view(t@));
        assert(t@.len() >= 1);
        let m = &t[0];
        if is_word(m, "use") {
            if st.procs.len() > 0 {
                return Err(error_at(toks, i, ParseErrorKind::MisplacedImport));
            }
            if t.len() < 2 {
                return Err(error_at(toks, i, ParseErrorKind::MissingParameter));
            }
            let path = path_of(t);
            let alias = alias_for(&path);
            match find_word(&st.scope.aliases, &alias) {
                None => {
                    let ghost prev = st@;
                    st.scope.aliases.push(alias);
                    st.scope.paths.push(path);
                    proof {
                        assert(st.scope@.aliases == prev.aliases.push(alias@));
                        assert(st.scope@.paths == prev.paths.push(path@));
                    }
                },
                Some(a) => {
                    proof {
                        lemma_index_of(st@.aliases, alias@);
                    }
                    if !crate::text::same_chars(&st.scope.paths[a], &path) {
                        return Err(error_at(toks, i, ParseErrorKind::ConflictingImport));
                    }
                },
            }
            i = i + 1;
        } else if is_word(m, "proc") || is_word(m, "export") {
            if t.len() < 2 || t.len() > 3 || t[1].len() == 0 {
                return Err(error_at(toks, i, ParseErrorKind::MalformedDeclaration));
            }
            let num_locals: u16 = if t.len() == 2 {
                0
            } else {
                match parse_bounded(&t[2], 0, u16::MAX as u64) {
                    Ok(n) => n as u16,
                    Err(e) => {
                        return Err(error_at(toks, i, e));
                    },
                }
            };
            let name = &t[1];
            if find_word(&st.scope.locals, name).is_some() {
                return Err(error_at(toks, i, ParseErrorKind::DuplicateProcedure));
            }
            if st.procs.len() > u16::MAX as usize {
                return Err(error_at(toks, i, ParseErrorKind::TooManyProcedures));
            }
            let (body, p) = match parse_block(toks, &st.scope, i + 1) {
                Ok(x) => x,
                Err(e) => {
                    return Err(e);
                },
            };
            let closing = &toks[p].parts;
            assert(tp[p as int] == words_view(closing@));
            if !(is_word(&closing[0], "end") && closing.len() == 1) {
                return Err(error_at(toks, p, ParseErrorKind::UnexpectedToken));
            }
            let is_export = is_word(m, "export");
            let decl = ProcedureAst {
                name: string_of(name),
                docs: if is_export {
                    copy_docs(&toks[i].docs)
                } else {
                    None
                },
                is_export,
                num_locals,
                body,
            };
            let ghost prev = st@;
            let ghost prev_procs = st.procs@;
            let ghost prev_locals = st.scope.locals@;
            let local = chars_between(name, 0, name.len());
            assert(local@ =~= name@);
            let ghost local_v = local;
            st.procs.push(decl);
            st.scope.locals.push(local);
            assert(st.scope.locals@ == prev_locals.push(local_v));
            proof {
                assert(procs_view(st.procs@) =~= procs_view(prev_procs).push(decl@));
                assert(proc_names(procs_view(st.procs@)) =~= proc_names(procs_view(prev_procs)).push(name@));
                assert(words_view(st.scope.locals@) =~= words_view(prev_locals).push(name@));
            }
            i = p + 1;
        } else if is_word(m, "begin") {
            if t.len() != 1 {
                return Err(error_at(toks, i, ParseErrorKind::UnexpectedToken));
            }
            let (body, p) = match parse_block(toks, &st.scope, i + 1) {
                Ok(x) => x,
                Err(e) => {
                    return Err(e);
                },
            };
            let closing = &toks[p].parts;
            assert(tp[p as int] == words_view(closing@));
            if !(is_word(&closing[0], "end") && closing.len() == 1) {
                return Err(error_at(toks, p, ParseErrorKind::UnexpectedToken));
            }
            st.body = Some(body);
            i = p + 1;
        } else {
            return Err(error_at(toks, i, ParseErrorKind::UnexpectedToken));
        }
    }
}

/// Reading a unit keeps the procedure names unique.
pub proof fn lemma_unit_names_unique(
    toks: Seq<Seq<Seq<char>>>,
    docs: Seq<Option<Seq<char>>>,
    pos: int,
    u: UnitView,
)
    requires
        names_unique(u.procs),
    ensures
        unit_from(toks, docs, pos, u) matches Ok(v) ==> names_unique(v.procs),
    decreases toks.len() - pos,
{
    if 0 <= pos < toks.len() && u.body is None {
        let t = toks[pos];
        let m = t[0];
        if m == "use"@ {
            if u.procs.len() == 0 && t.len() >= 2 {
                let path = join_path(t.skip(1));
                let alias = alias_of(path);
                let a = index_of(u.aliases, alias);
                if a < 0 {
                    lemma_unit_names_unique(
                        toks,
                        docs,
                        pos + 1,
                        UnitView {
                            procs: u.procs,
                            aliases: u.aliases.push(alias),
                            paths: u.paths.push(path),
                            body: u.body,
                        },
                    );
                } else {
                    lemma_unit_names_unique(toks, docs, pos + 1, u);
                }
            }
        } else if m == "proc"@ || m == "export"@ {
            if let Ok((name, locals)) = header_of(t) {
                if index_of(proc_names(u.procs), name) < 0 && u.procs.len() <= u16::MAX {
                    if let Ok((b, p)) = body_of(toks, unit_scope(u), pos + 1, Seq::empty()) {
                        if pos < p < toks.len() && is_end(toks[p]) {
                            let decl = ProcedureView {
                                name,
                                docs: if m == "export"@ {
                                    docs[pos]
                                } else {
                                    None
                                },
                                is_export: m == "export"@,
                                num_locals: locals,
                                body: b,
                            };
                            let procs = u.procs.push(decl);
                            lemma_index_of(proc_names(u.procs), name);
                            assert forall|i: int, j: int|
                                0 <= i < procs.len() && 0 <= j < procs.len() && i != j implies (
                            #[trigger] procs[i]).name != (#[trigger] procs[j]).name by {
                                if i < u.procs.len() && j < u.procs.len() {
                                } else if i == u.procs.len() {
                                    assert(proc_names(u.procs)[j] == u.procs[j].name);
                                } else {
                                    assert(proc_names(u.procs)[i] == u.procs[i].name);
                                }
                            }
                            lemma_unit_names_unique(
                                toks,
                                docs,
                                p + 1,
                                UnitView { procs, aliases: u.aliases, paths: u.paths, body: u.body },
                            );
                        }
                    }
                }
            }
        } else if m == "begin"@ {
            if let Ok((b, p)) = body_of(toks, unit_scope(u), pos + 1, Seq::empty()) {
                if pos < p < toks.len() {
                    lemma_unit_names_unique(
                        toks,
                        docs,
                        p + 1,
                        UnitView { procs: u.procs, aliases: u.aliases, paths: u.paths, body: Some(b) },
                    );
                }
            }
        }
    }
}

/// A program that the tokens hold keeps the program rules, and a module the module rule.
pub proof fn lemma_parsed_units_keep_rules(toks: Seq<Seq<Seq<char>>>, docs: Seq<Option<Seq<char>>>)
    ensures
        program_of(toks, docs) matches Ok(p) ==> program_rules(p),
        module_of(toks, docs) matches Ok(m) ==> module_rules(m),
{
    lemma_unit_names_unique(toks, docs, 0, empty_unit());
}

pub open spec fn program_agrees(r: Result<ProgramAst, ParsingError>, s: Result<ProgramView, ParseErrorKind>) -> bool {
    match (r, s) {
        (Ok(p), Ok(v)) => p@ == v,
        (Err(e), Err(k)) => e.kind == k,
        _ => false,
    }
}

pub open spec fn module_agrees(r: Result<ModuleAst, ParsingError>, s: Result<ModuleView, ParseErrorKind>) -> bool {
    match (r, s) {
        (Ok(m), Ok(v)) => m@ == v,
        (Err(e), Err(k)) => e.kind == k,
        _ => false,
    }
}

/// Builds the program that a token stream holds.
pub fn program_from_tokens(toks: &Vec<Token>) -> (r: Result<ProgramAst, ParsingError>)
    requires
        tokens_wf(token_parts(toks@)),
    ensures
        program_agrees(r, program_of(token_parts(toks@), token_docs(toks@))),
        r matches Ok(p) ==> program_rules(p@),
{
    proof {
        lemma_parsed_units_keep_rules(token_parts(toks@), token_docs(toks@));
    }
    let st = match parse_unit(toks) {
        Ok(st) => st,
        Err(e) => {
            return Err(e);
        },
    };
    assert(unit_of(token_parts(toks@), token_docs(toks@)) == Ok::<UnitView, ParseErrorKind>(st@));
    let mut i: usize = 0;
    while i < st.procs.len()
        invariant
            i <= st.procs@.len(),
            unit_of(token_parts(toks@), token_docs(toks@)) == Ok::<UnitView, ParseErrorKind>(st@),
            forall|k: int| 0 <= k < i ==> !(#[trigger] st.procs@[k]).is_export,
        decreases st.procs@.len() - i,
    {
        if st.procs[i].is_export {
            proof {
                assert(procs_view(st.procs@)[i as int].is_export);
                assert(has_export(procs_view(st.procs@)));
                assert(st@.procs == procs_view(st.procs@));
            }
            return Err(error_at(toks, toks.len(), ParseErrorKind::ExportInProgram));
        }
        i = i + 1;
    }
    assert(!has_export(procs_view(st.procs@))) by {
        assert forall|k: int| 0 <= k < procs_view(st.procs@).len() implies !(#[trigger] procs_view(
            st.procs@,
        )[k]).is_export by {
            assert(!st.procs@[k].is_export);
        }
    }
    match st.body {
        None => Err(error_at(toks, toks.len(), ParseErrorKind::MissingBody)),
        Some(body) => {
            if body.len() == 0 {
                proof {
                    assert(nodes_view(body@).len() == 0);
                }
                Err(error_at(toks, toks.len(), ParseErrorKind::MissingBody))
            } else {
                proof {
                    lemma_nodes_view_len(body@);
                }
                Ok(ProgramAst { body, local_procs: st.procs })
            }
        },
    }
}

proof fn lemma_nodes_view_len(s: Seq<Node>)
    ensures
        nodes_view(s).len() == s.len(),
    decreases s.len(),
{
    if s.len() > 0 {
        lemma_nodes_view_len(s.drop_last());
    }
}

/// Builds the module that a token stream holds.
pub fn module_from_tokens(toks: &Vec<Token>) -> (r: Result<ModuleAst, ParsingError>)
    requires
        tokens_wf(token_parts(toks@)),
    ensures
        module_agrees(r, module_of(token_parts(toks@), token_docs(toks@))),
        r matches Ok(m) ==> module_rules(m@),
{
    proof {
        lemma_parsed_units_keep_rules(token_parts(toks@), token_docs(toks@));
    }
    let st = match parse_unit(toks) {
        Ok(st) => st,
        Err(e) => {
            return Err(e);
        },
    };
    if st.body.is_some() {
        return Err(error_at(toks, toks.len(), ParseErrorKind::BodyInModule));
    }
    Ok(ModuleAst { local_procs: st.procs })
}

/// The program that a source text holds.
pub open spec fn source_program(source: Seq<char>) -> Result<ProgramView, ParseErrorKind> {
    match lex(source) {
        None => Err(ParseErrorKind::DocumentationBlankLine),
        Some(ts) => program_of(lexed_parts(ts), lexed_docs(ts)),
    }
}

/// The module that a source text holds.
pub open spec fn source_module(source: Seq<char>) -> Result<ModuleView, ParseErrorKind> {
    match lex(source) {
        None => Err(ParseErrorKind::DocumentationBlankLine),
        Some(ts) => module_of(lexed_parts(ts), lexed_docs(ts)),
    }
}

proof fn lemma_token_views(toks: Seq<Token>)
    ensures
        token_parts(toks) == lexed_parts(tokens_view(toks)),
        token_docs(toks) == lexed_docs(tokens_view(toks)),
{
    assert(token_parts(toks) =~= lexed_parts(tokens_view(toks)));
    assert(token_docs(toks) =~= lexed_docs(tokens_view(toks)));
}

/// Parses `source` as a program: a `begin ... end` body after the declarations,
/// none of them exported.
pub fn parse_program(source: &str) -> (r: Result<ProgramAst, ParsingError>)
    ensures
        program_agrees(r, source_program(source@)),
        r matches Ok(p) ==> program_rules(p@),
{
    let toks = match tokenize(source) {
        Ok(t) => t,
        Err(e) => {
            return Err(e);
        },
    };
    proof {
        lemma_token_views(toks@);
    }
    program_from_tokens(&toks)
}

/// Parses `source` as a module: declarations only, with no body.
pub fn parse_module(source: &str) -> (r: Result<ModuleAst, ParsingError>)
    ensures
        module_agrees(r, source_module(source@)),
        r matches Ok(m) ==> module_rules(m@),
{
    let toks = match tokenize(source) {
        Ok(t) => t,
        Err(e) => {
            return Err(e);
        },
    };
    proof {
        lemma_token_views(toks@);
    }
    module_from_tokens(&toks)
}

/// `procedures` lists `proc` under the index `i`.
pub open spec fn listed(procedures: Seq<(u16, ProcedureAst)>, i: int, proc: ProcedureView) -> bool {
    exists|j: int| 0 <= j < procedures.len() && procedures[j].0 == i && (#[trigger] procedures[j]).1@ == proc
}

/// The program has exactly the body `body`, and each of its procedures stands in
/// `procedures` under its declaration index.
pub open spec fn program_output_matches(
    p: ProgramView,
    procedures: Seq<(u16, ProcedureAst)>,
    body: Seq<Node>,
) -> bool {
    &&& p.body == nodes_view(body)
    &&& p.procs.len() == procedures.len()
    &&& forall|i: int| 0 <= i < p.procs.len() ==> #[trigger] listed(procedures, i, p.procs[i])
}

/// Whether `program` has exactly the body `body` and the procedures `procedures`,
/// each given with its declaration index.
pub fn program_matches(program: &ProgramAst, procedures: &Vec<(u16, ProcedureAst)>, body: &Vec<Node>) -> (r: bool)
    ensures
        r == program_output_matches(program@, procedures@, body@),
{
    if !nodes_eq(&program.body, body) {
        return false;
    }
    if program.local_procs.len() != procedures.len() {
        return false;
    }
    let ghost pv = program@;
    let mut i: usize = 0;
    while i < program.local_procs.len()
        invariant
            i <= program.local_procs@.len(),
            pv == program@,
            pv.procs.len() == program.local_procs@.len(),
            pv.body == nodes_view(body@),
            procedures@.len() == pv.procs.len(),
            forall|k: int| 0 <= k < i ==> #[trigger] listed(procedures@, k, pv.procs[k]),
        decreases program.local_procs@.len() - i,
    {
        let mut found = false;
        let mut j: usize = 0;
        while j < procedures.len()
            invariant
                j <= procedures@.len(),
                i < program.local_procs@.len(),
                pv == program@,
                found ==> listed(procedures@, i as int, pv.procs[i as int]),
                !found ==> forall|jj: int|
                    0 <= jj < j ==> !((#[trigger] procedures@[jj]).0 == i && procedures@[jj].1@
                        == pv.procs[i as int]),
            decreases procedures@.len() - j,
        {
            assert(pv.procs[i as int] == program.local_procs@[i as int]@);
            if procedures[j].0 as usize == i && procedure_eq(&procedures[j].1, &program.local_procs[i]) {
                found = true;
                assert(procedures@[j as int].1@ == pv.procs[i as int]);
            }
            j = j + 1;
        }
        if !found {
            assert(!listed(procedures@, i as int, pv.procs[i as int]));
            return false;
        }
        i = i + 1;
    }
    true
}

/// Whether `source` parses as a program with exactly the body `body` and the
/// procedures `procedures`, each given with its declaration index.
pub fn assert_program_output(source: &str, procedures: Vec<(u16, ProcedureAst)>, body: Vec<Node>) -> (r: bool)
    ensures
        r == (source_program(source@) is Ok && program_output_matches(
            source_program(source@)->Ok_0,
            procedures@,
            body@,
        )),
{
    match parse_program(source) {
        Ok(program) => program_matches(&program, &procedures, &body),
        Err(_) => false,
    }
}

/// A unit without a body is a module and no program; a program is no module; a
/// unit with an exported procedure is no program.
pub proof fn lemma_program_or_module(toks: Seq<Seq<Seq<char>>>, docs: Seq<Option<Seq<char>>>)
    ensures
        unit_of(toks, docs) is Ok && unit_of(toks, docs)->Ok_0.body is None ==> module_of(toks, docs)
            == Ok::<ModuleView, ParseErrorKind>(ModuleView { procs: unit_of(toks, docs)->Ok_0.procs })
            && program_of(toks, docs) is Err,
        unit_of(toks, docs) is Ok && has_export(unit_of(toks, docs)->Ok_0.procs) ==> program_of(
            toks,
            docs,
        ) is Err,
        program_of(toks, docs) is Ok ==> module_of(toks, docs) is Err,
{
}

/// Procedures are numbered in declaration order: in a scope whose `k`-th local
/// is `name`, and where no other local has that name, `exec.name` calls index `k`.
/// A source without a body is a module and no program; a program is no module; a
/// source with an exported procedure is no program.
pub proof fn lemma_source_program_or_module(source: Seq<char>)
    ensures
        source_program(source) is Ok ==> source_module(source) is Err,
        lex(source) matches Some(ts) && unit_of(lexed_parts(ts), lexed_docs(ts)) matches Ok(u) && u.body is None
            ==> source_module(source) is Ok && source_program(source) is Err,
        lex(source) matches Some(ts) && unit_of(lexed_parts(ts), lexed_docs(ts)) matches Ok(u) && has_export(
            u.procs,
        ) ==> source_program(source) is Err,
{
    if let Some(ts) = lex(source) {
        lemma_program_or_module(lexed_parts(ts), lexed_docs(ts));
    }
}

pub proof fn lemma_local_call_index(name: Seq<char>, scope: ScopeView, k: int)
    requires
        0 <= k < scope.locals.len() <= u16::MAX + 1,
        scope.locals[k] == name,
        forall|j: int| 0 <= j < scope.locals.len() && j != k ==> scope.locals[j] != name,
    ensures
        call_of(name, scope) == Ok::<InstructionView, ParseErrorKind>(
            instruction_view(OP_EXEC_LOCAL, Operand::Half(k as u16)),
        ),
{
    lemma_index_of(scope.locals, name);
}

/// Declarations take indices in source order: reading on from `u` keeps every
/// procedure already declared at its index, and appends the later ones after it.
pub proof fn lemma_unit_keeps_order(
    toks: Seq<Seq<Seq<char>>>,
    docs: Seq<Option<Seq<char>>>,
    pos: int,
    u: UnitView,
)
    ensures
        unit_from(toks, docs, pos, u) matches Ok(v) ==> u.procs.len() <= v.procs.len() && v.procs.take(
            u.procs.len() as int,
        ) == u.procs,
    decreases toks.len() - pos,
{
    if 0 <= pos < toks.len() && u.body is None {
        let t = toks[pos];
        let m = t[0];
        if m == "use"@ {
            if u.procs.len() == 0 && t.len() >= 2 {
                let path = join_path(t.skip(1));
                let alias = alias_of(path);
                let a = index_of(u.aliases, alias);
                if a < 0 {
                    lemma_unit_keeps_order(
                        toks,
                        docs,
                        pos + 1,
                        UnitView {
                            procs: u.procs,
                            aliases: u.aliases.push(alias),
                            paths: u.paths.push(path),
                            body: u.body,
                        },
                    );
                } else {
                    lemma_unit_keeps_order(toks, docs, pos + 1, u);
                }
            }
        } else if m == "proc"@ || m == "export"@ {
            if let Ok((name, locals)) = header_of(t) {
                if index_of(proc_names(u.procs), name) < 0 && u.procs.len() <= u16::MAX {
                    if let Ok((b, p)) = body_of(toks, unit_scope(u), pos + 1, Seq::empty()) {
                        if pos < p < toks.len() && is_end(toks[p]) {
                            let decl = ProcedureView {
                                name,
                                docs: if m == "export"@ {
                                    docs[pos]
                                } else {
                                    None
                                },
                                is_export: m == "export"@,
                                num_locals: locals,
                                body: b,
                            };
                            let procs = u.procs.push(decl);
                            lemma_unit_keeps_order(
                                toks,
                                docs,
                                p + 1,
                                UnitView { procs, aliases: u.aliases, paths: u.paths, body: u.body },
                            );
                            if let Ok(v) = unit_from(
                                toks,
                                docs,
                                p + 1,
                                UnitView { procs, aliases: u.aliases, paths: u.paths, body: u.body },
                            ) {
                                assert(v.procs.take(u.procs.len() as int) =~= v.procs.take(
                                    procs.len() as int,
                                ).take(u.procs.len() as int));
                                assert(procs.take(u.procs.len() as int) =~= u.procs);
                            }
                        }
                    }
                }
            }
        } else if m == "begin"@ {
            if let Ok((b, p)) = body_of(toks, unit_scope(u), pos + 1, Seq::empty()) {
                if pos < p < toks.len() {
                    lemma_unit_keeps_order(
                        toks,
                        docs,
                        p + 1,
                        UnitView { procs: u.procs, aliases: u.aliases, paths: u.paths, body: Some(b) },
                    );
                }
            }
        }
    } else {
        assert(u.procs.take(u.procs.len() as int) =~= u.procs);
    }
}

} // verus!

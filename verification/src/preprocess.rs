//! The macro preprocessor: splits source into call-site fragments and macro
//! definitions, resolves macro bodies in dependency order, substitutes them
//! into the fragments, and lexes the result.
//!
//! A definition is written `name { body }`; a call site is written `@name@`.
//! Resolution is an iterative work list: each pass resolves every macro whose
//! body references no still-unresolved macro; a pass that resolves nothing
//! reports `RecursiveMacroReference`.

use vstd::prelude::*;
use crate::errors::BfError;
use crate::instr::Instruction;
use crate::lexer::lemma_lex_concat;
use crate::lexer::parse_chars;
use crate::lexer::spec_lex;
use crate::text::chars_vec;
use crate::text::copy_range;
use crate::text::extend_chars;
use crate::text::chars_eq;
use crate::text::find_from;
use crate::text::has_sub;
use crate::text::last_token;
use crate::text::replace_all;
use crate::text::spec_find;
use crate::text::spec_has_sub;
use crate::text::spec_last_token;
use crate::text::spec_replace;
use crate::text::lemma_spec_find_props;

verus! {

/// A macro table: name keys (already in `@name@` call-site form) paired with
/// raw body text, in insertion order, keys unique.
pub type MacroTable = Seq<(Seq<char>, Seq<char>)>;

/// The table a vector of key/body pairs stands for.
pub open spec fn table_view(t: Seq<(Vec<char>, Vec<char>)>) -> MacroTable {
    t.map_values(|p: (Vec<char>, Vec<char>)| (p.0@, p.1@))
}

/// The fragment list a vector of character vectors stands for.
pub open spec fn frags_view(f: Seq<Vec<char>>) -> Seq<Seq<char>> {
    f.map_values(|x: Vec<char>| x@)
}

/// The characters that denote instructions and are therefore forbidden in
/// macro names.
pub open spec fn spec_is_instruction_char(c: char) -> bool {
    c == '[' || c == ']' || c == '<' || c == '>' || c == '+' || c == '-' || c == '.' || c == ','
}

/// True when a macro name contains an instruction character.
pub open spec fn spec_name_invalid(name: Seq<char>) -> bool {
    exists|i: int| 0 <= i < name.len() && spec_is_instruction_char(name[i])
}

/// The call-site token of a macro name: `@name@`.
pub open spec fn spec_key_of(name: Seq<char>) -> Seq<char> {
    seq!['@'] + name + seq!['@']
}

/// The first table entry with key `k` at or after position `from`, if any.
pub open spec fn spec_tbl_find(t: MacroTable, k: Seq<char>, from: int) -> Option<int>
    decreases t.len() - from,
{
    if from < 0 || from >= t.len() {
        None
    } else if t[from].0 == k {
        Some(from)
    } else {
        spec_tbl_find(t, k, from + 1)
    }
}

/// Binds `k` to `v`: overwrites the existing entry for `k`, or appends a new
/// one.
pub open spec fn spec_tbl_put(t: MacroTable, k: Seq<char>, v: Seq<char>) -> MacroTable {
    match spec_tbl_find(t, k, 0) {
        Some(i) => t.update(i, (k, v)),
        None => t.push((k, v)),
    }
}

/// The split scan from position `pos`: text up to the next `{` is a call-site
/// fragment, the brace-delimited span after it is a macro body named by the
/// fragment's last token, and the scan continues past the closing `}`. A `}`
/// standing inside a fragment — before the next `{`, or after the last
/// definition — has no partner and is rejected, so a source whose `{` / `}`
/// counts disagree always fails with `UnmatchedBrace`.
pub open spec fn spec_split_from(
    s: Seq<char>,
    pos: int,
    frags: Seq<Seq<char>>,
    tbl: MacroTable,
) -> Result<(Seq<Seq<char>>, MacroTable), BfError>
    decreases s.len() - pos,
    via spec_split_from_dec
{
    if pos < 0 || pos >= s.len() {
        Ok((frags, tbl))
    } else {
        match spec_find(s, '{', pos) {
            None => if spec_find(s, '}', pos) is Some {
                Err(BfError::UnmatchedBrace)
            } else {
                Ok((frags.push(s.skip(pos)), tbl))
            },
            Some(i) => if (match spec_find(s, '}', pos) {
                Some(j) => j < i,
                None => false,
            }) {
                Err(BfError::UnmatchedBrace)
            } else {
                match spec_find(s, '}', i + 1) {
                None => Err(BfError::UnmatchedBrace),
                Some(ci) => {
                    let nested = match spec_find(s, '{', i + 1) {
                        Some(j) => j < ci,
                        None => false,
                    };
                    if nested {
                        Err(BfError::NestedMacroDefinition)
                    } else {
                        let frag = s.subrange(pos, i);
                        let name = spec_last_token(frag);
                        if name.len() == 0 {
                            Err(BfError::MissingMacroName)
                        } else if spec_name_invalid(name) {
                            Err(BfError::InvalidMacroName)
                        } else {
                            spec_split_from(
                                s,
                                ci + 1,
                                frags.push(frag),
                                spec_tbl_put(tbl, spec_key_of(name), s.subrange(i + 1, ci)),
                            )
                        }
                    }
                },
                }
            },
        }
    }
}

#[via_fn]
proof fn spec_split_from_dec(s: Seq<char>, pos: int, frags: Seq<Seq<char>>, tbl: MacroTable) {
    if 0 <= pos < s.len() {
        match spec_find(s, '{', pos) {
            Some(i) => {
                lemma_spec_find_props(s, '{', pos);
                match spec_find(s, '}', i + 1) {
                    Some(ci) => {
                        lemma_spec_find_props(s, '}', i + 1);
                    },
                    None => (),
                }
            },
            None => (),
        }
    }
}

/// Splits source text into its call-site fragments and its macro table.
pub open spec fn spec_split(s: Seq<char>) -> Result<(Seq<Seq<char>>, MacroTable), BfError> {
    spec_split_from(s, 0, Seq::empty(), Seq::empty())
}

/// Reports whether `name` contains an instruction character.
fn name_invalid(name: &Vec<char>) -> (b: bool)
    ensures
        b == spec_name_invalid(name@),
{
    let n = name.len();
    let mut i: usize = 0;
    while i < n
        invariant
            i <= n,
            n == name@.len(),
            forall|l: int| 0 <= l < i ==> !spec_is_instruction_char(name@[l]),
        decreases n - i,
    {
        let c = name[i];
        if c == '[' || c == ']' || c == '<' || c == '>' || c == '+' || c == '-' || c == '.' || c
            == ',' {
            proof {
                assert(spec_is_instruction_char(name@[i as int]));
            }
            return true;
        }
        i = i + 1;
    }
    false
}

/// Builds the call-site token `@name@`.
fn key_of(name: &Vec<char>) -> (r: Vec<char>)
    ensures
        r@ == spec_key_of(name@),
{
    let mut r: Vec<char> = Vec::new();
    r.push('@');
    extend_chars(&mut r, name);
    r.push('@');
    proof {
        assert(r@ =~= spec_key_of(name@));
    }
    r
}

/// Binds `k` to `v` in the table, overwriting an existing entry for `k`.
fn tbl_put(t: &mut Vec<(Vec<char>, Vec<char>)>, k: Vec<char>, v: Vec<char>)
    ensures
        table_view(final(t)@) == spec_tbl_put(table_view(old(t)@), k@, v@),
{
    let n = t.len();
    let mut i: usize = 0;
    while i < n
        invariant
            i <= n,
            n == t@.len(),
            t@ == old(t)@,
            spec_tbl_find(table_view(t@), k@, i as int) == spec_tbl_find(table_view(t@), k@, 0),
        decreases n - i,
    {
        let found = {
            let pair = &t[i];
            chars_eq(&pair.0, &k)
        };
        if found {
            t[i] = (k, v);
            proof {
                assert(table_view(t@) =~= table_view(old(t)@).update(
                    i as int,
                    (table_view(t@)[i as int].0, table_view(t@)[i as int].1),
                ));
            }
            return;
        }
        i = i + 1;
    }
    t.push((k, v));
    proof {
        assert(table_view(t@) =~= table_view(old(t)@).push((k@, v@)));
    }
}

/// Splits the source characters into call-site fragments and the macro
/// table, reporting the first malformed definition.
fn split_source(chars: &Vec<char>) -> (r: Result<
    (Vec<Vec<char>>, Vec<(Vec<char>, Vec<char>)>),
    BfError,
>)
    ensures
        match r {
            Ok(p) => spec_split(chars@) matches Ok(sp) && sp.0 == frags_view(p.0@) && sp.1
                == table_view(p.1@),
            Err(e) => spec_split(chars@) matches Err(e2) && e2 == e,
        },
{
    let n = chars.len();
    let mut frags: Vec<Vec<char>> = Vec::new();
    let mut tbl: Vec<(Vec<char>, Vec<char>)> = Vec::new();
    let mut pos: usize = 0;
    proof {
        assert(frags_view(frags@) =~= Seq::<Seq<char>>::empty());
        assert(table_view(tbl@) =~= Seq::<(Seq<char>, Seq<char>)>::empty());
    }
    while pos < n
        invariant
            pos <= n,
            n == chars@.len(),
            spec_split_from(chars@, pos as int, frags_view(frags@), table_view(tbl@))
                == spec_split(chars@),
        decreases n - pos,
    {
        match find_from(chars, '{', pos) {
            None => {
                match find_from(chars, '}', pos) {
                    Some(_) => {
                        return Err(BfError::UnmatchedBrace);
                    },
                    None => (),
                }
                let frag = copy_range(chars, pos, n);
                proof {
                    assert(frag@ =~= chars@.skip(pos as int));
                    assert(frags_view(frags@.push(frag)) =~= frags_view(frags@).push(frag@));
                }
                frags.push(frag);
                pos = n;
            },
            Some(i) => {
                proof {
                    lemma_spec_find_props(chars@, '{', pos as int);
                }
                let stray = match find_from(chars, '}', pos) {
                    Some(j) => j < i,
                    None => false,
                };
                if stray {
                    return Err(BfError::UnmatchedBrace);
                }
                match find_from(chars, '}', i + 1) {
                    None => {
                        return Err(BfError::UnmatchedBrace);
                    },
                    Some(ci) => {
                        proof {
                            lemma_spec_find_props(chars@, '}', i + 1 as int);
                        }
                        let nested = match find_from(chars, '{', i + 1) {
                            Some(j) => j < ci,
                            None => false,
                        };
                        if nested {
                            return Err(BfError::NestedMacroDefinition);
                        }
                        let frag = copy_range(chars, pos, i);
                        let name = last_token(&frag);
                        if name.len() == 0 {
                            return Err(BfError::MissingMacroName);
                        }
                        if name_invalid(&name) {
                            return Err(BfError::InvalidMacroName);
                        }
                        let key = key_of(&name);
                        let body = copy_range(chars, i + 1, ci);
                        let ghost tbl_pre = table_view(tbl@);
                        tbl_put(&mut tbl, key, body);
                        proof {
                            assert(frags_view(frags@.push(frag)) =~= frags_view(frags@).push(
                                frag@,
                            ));
                        }
                        frags.push(frag);
                        pos = ci + 1;
                    },
                }
            },
        }
    }
    proof {
        assert(spec_split_from(chars@, pos as int, frags_view(frags@), table_view(tbl@))
            matches Ok(sp) && sp.0 == frags_view(frags@) && sp.1 == table_view(tbl@));
    }
    Ok((frags, tbl))
}

/// True when `body` references no macro of `remaining`: no key of the table
/// occurs in it.
pub open spec fn spec_body_ready(body: Seq<char>, remaining: MacroTable) -> bool {
    forall|i: int| 0 <= i < remaining.len() ==> !spec_has_sub(body, remaining[i].0)
}

/// Substitutes every resolved macro into `body`, in the order the macros
/// were resolved.
pub open spec fn spec_subst_all(body: Seq<char>, processed: MacroTable) -> Seq<char>
    decreases processed.len(),
{
    if processed.len() == 0 {
        body
    } else {
        spec_subst_all(
            spec_replace(body, processed[0].0, processed[0].1),
            processed.drop_first(),
        )
    }
}

/// One resolution pass over the work list `rem`: a macro whose body is ready
/// (references nothing in the pass's `snapshot`) is substituted and moved to
/// `processed`; the others are `kept` for the next pass.
pub open spec fn spec_pass(
    rem: MacroTable,
    snapshot: MacroTable,
    processed: MacroTable,
    kept: MacroTable,
) -> (MacroTable, MacroTable)
    decreases rem.len(),
{
    if rem.len() == 0 {
        (processed, kept)
    } else {
        let entry = rem[0];
        if spec_body_ready(entry.1, snapshot) {
            spec_pass(
                rem.drop_first(),
                snapshot,
                processed.push((entry.0, spec_subst_all(entry.1, processed))),
                kept,
            )
        } else {
            spec_pass(rem.drop_first(), snapshot, processed, kept.push(entry))
        }
    }
}

proof fn lemma_pass_lens(rem: MacroTable, snapshot: MacroTable, processed: MacroTable, kept: MacroTable)
    ensures
        spec_pass(rem, snapshot, processed, kept).1.len() <= kept.len() + rem.len(),
    decreases rem.len(),
{
    if rem.len() > 0 {
        let entry = rem[0];
        if spec_body_ready(entry.1, snapshot) {
            lemma_pass_lens(
                rem.drop_first(),
                snapshot,
                processed.push((entry.0, spec_subst_all(entry.1, processed))),
                kept,
            );
        } else {
            lemma_pass_lens(rem.drop_first(), snapshot, processed, kept.push(entry));
        }
    }
}

/// Resolves the work list to a fully substituted macro table, or reports
/// `RecursiveMacroReference` when a pass makes no progress.
pub open spec fn spec_resolve(remaining: MacroTable, processed: MacroTable) -> Result<
    MacroTable,
    BfError,
>
    decreases remaining.len(),
    via spec_resolve_dec
{
    if remaining.len() == 0 {
        Ok(processed)
    } else {
        let pr = spec_pass(remaining, remaining, processed, Seq::empty());
        if pr.1.len() == remaining.len() {
            Err(BfError::RecursiveMacroReference)
        } else {
            spec_resolve(pr.1, pr.0)
        }
    }
}

#[via_fn]
proof fn spec_resolve_dec(remaining: MacroTable, processed: MacroTable) {
    if remaining.len() > 0 {
        lemma_pass_lens(remaining, remaining, processed, Seq::empty());
    }
}

/// Reports whether `body` references no macro still in `rem`.
fn body_ready(body: &Vec<char>, rem: &Vec<(Vec<char>, Vec<char>)>) -> (b: bool)
    ensures
        b == spec_body_ready(body@, table_view(rem@)),
{
    let n = rem.len();
    let mut i: usize = 0;
    while i < n
        invariant
            i <= n,
            n == rem@.len(),
            forall|l: int| 0 <= l < i ==> !spec_has_sub(body@, table_view(rem@)[l].0),
        decreases n - i,
    {
        let hit = {
            let pair = &rem[i];
            has_sub(body, &pair.0)
        };
        if hit {
            proof {
                assert(spec_has_sub(body@, table_view(rem@)[i as int].0));
            }
            return false;
        }
        i = i + 1;
    }
    true
}

/// Substitutes every processed macro into `body`, in resolution order.
fn subst_all(body: &Vec<char>, processed: &Vec<(Vec<char>, Vec<char>)>) -> (r: Vec<char>)
    ensures
        r@ == spec_subst_all(body@, table_view(processed@)),
{
    let ghost tv = table_view(processed@);
    let mut cur = copy_range(body, 0, body.len());
    proof {
        assert(cur@ =~= body@);
        assert(tv.skip(0) =~= tv);
    }
    let m = processed.len();
    let mut j: usize = 0;
    while j < m
        invariant
            j <= m,
            m == processed@.len(),
            tv == table_view(processed@),
            spec_subst_all(cur@, tv.skip(j as int)) == spec_subst_all(body@, tv),
        decreases m - j,
    {
        let next = {
            let pair = &processed[j];
            replace_all(&cur, &pair.0, &pair.1)
        };
        proof {
            assert(tv.skip(j as int)[0] == tv[j as int]);
            assert(tv.skip(j as int).drop_first() =~= tv.skip(j + 1 as int));
        }
        cur = next;
        j = j + 1;
    }
    proof {
        assert(tv.skip(m as int) =~= Seq::<(Seq<char>, Seq<char>)>::empty());
    }
    cur
}

/// Resolves the macro table by repeated passes, exactly as [`spec_resolve`]
/// says.
fn resolve_table(tbl: Vec<(Vec<char>, Vec<char>)>) -> (r: Result<
    Vec<(Vec<char>, Vec<char>)>,
    BfError,
>)
    ensures
        match r {
            Ok(p) => spec_resolve(table_view(tbl@), Seq::empty()) matches Ok(pt) && pt
                == table_view(p@),
            Err(e) => spec_resolve(table_view(tbl@), Seq::empty()) matches Err(e2) && e2 == e,
        },
{
    let ghost t0 = table_view(tbl@);
    let mut remaining = tbl;
    let mut processed: Vec<(Vec<char>, Vec<char>)> = Vec::new();
    proof {
        assert(table_view(processed@) =~= Seq::<(Seq<char>, Seq<char>)>::empty());
    }
    while remaining.len() > 0
        invariant
            t0 == table_view(tbl@),
            spec_resolve(table_view(remaining@), table_view(processed@)) == spec_resolve(
                t0,
                Seq::empty(),
            ),
        decreases remaining@.len(),
    {
        let ghost snap = table_view(remaining@);
        let ghost p0 = table_view(processed@);
        let rem_len = remaining.len();
        let mut kept: Vec<(Vec<char>, Vec<char>)> = Vec::new();
        let mut j: usize = 0;
        proof {
            assert(snap.skip(0) =~= snap);
            assert(table_view(kept@) =~= Seq::<(Seq<char>, Seq<char>)>::empty());
        }
        while j < rem_len
            invariant
                j <= rem_len,
                rem_len == remaining@.len(),
                snap == table_view(remaining@),
                kept@.len() <= j,
                spec_pass(
                    snap.skip(j as int),
                    snap,
                    table_view(processed@),
                    table_view(kept@),
                ) == spec_pass(snap, snap, p0, Seq::empty()),
            decreases rem_len - j,
        {
            proof {
                assert(snap.skip(j as int)[0] == snap[j as int]);
                assert(snap.skip(j as int).drop_first() =~= snap.skip(j + 1 as int));
            }
            let ready = {
                let pair = &remaining[j];
                body_ready(&pair.1, &remaining)
            };
            if ready {
                let new_code = {
                    let pair = &remaining[j];
                    subst_all(&pair.1, &processed)
                };
                let key_copy = {
                    let pair = &remaining[j];
                    copy_range(&pair.0, 0, pair.0.len())
                };
                let ghost p_pre = table_view(processed@);
                proof {
                    assert(key_copy@ =~= snap[j as int].0);
                    assert(new_code@ == spec_subst_all(snap[j as int].1, p_pre));
                }
                processed.push((key_copy, new_code));
                proof {
                    assert(table_view(processed@) =~= p_pre.push(
                        (snap[j as int].0, spec_subst_all(snap[j as int].1, p_pre)),
                    ));
                }
            } else {
                let key_copy = {
                    let pair = &remaining[j];
                    copy_range(&pair.0, 0, pair.0.len())
                };
                let body_copy = {
                    let pair = &remaining[j];
                    copy_range(&pair.1, 0, pair.1.len())
                };
                let ghost k_pre = table_view(kept@);
                proof {
                    assert(key_copy@ =~= snap[j as int].0);
                    assert(body_copy@ =~= snap[j as int].1);
                }
                kept.push((key_copy, body_copy));
                proof {
                    assert(table_view(kept@) =~= k_pre.push(snap[j as int]));
                }
            }
            j = j + 1;
        }
        proof {
            assert(snap.skip(rem_len as int) =~= Seq::<(Seq<char>, Seq<char>)>::empty());
        }
        if kept.len() == rem_len {
            proof {
                assert(spec_pass(snap, snap, p0, Seq::empty()).1 == table_view(kept@));
                assert(table_view(kept@).len() == rem_len as int);
                assert(spec_resolve(snap, p0) matches Err(e2) && e2
                    == BfError::RecursiveMacroReference);
            }
            return Err(BfError::RecursiveMacroReference);
        }
        remaining = kept;
    }
    proof {
        assert(table_view(remaining@) =~= Seq::<(Seq<char>, Seq<char>)>::empty());
    }
    Ok(processed)
}

/// Substitutes every resolved macro into every call-site fragment, macro by
/// macro in resolution order.
pub open spec fn spec_subst_frags(frags: Seq<Seq<char>>, processed: MacroTable) -> Seq<Seq<char>>
    decreases processed.len(),
{
    if processed.len() == 0 {
        frags
    } else {
        spec_subst_frags(
            frags.map_values(|f: Seq<char>| spec_replace(f, processed[0].0, processed[0].1)),
            processed.drop_first(),
        )
    }
}

/// Lexes each fragment independently and concatenates the results in
/// fragment order.
pub open spec fn spec_lex_frags(frags: Seq<Seq<char>>, breakpoints: bool) -> Seq<Instruction>
    decreases frags.len(),
{
    if frags.len() == 0 {
        Seq::empty()
    } else {
        spec_lex_frags(frags.drop_last(), breakpoints) + spec_lex(frags.last(), breakpoints)
    }
}

/// The fragments joined back into one text, in source order.
pub open spec fn spec_flatten(frags: Seq<Seq<char>>) -> Seq<char>
    decreases frags.len(),
{
    if frags.len() == 0 {
        Seq::empty()
    } else {
        spec_flatten(frags.drop_last()) + frags.last()
    }
}

/// Macro expansion preserves the expansion-free program: lexing fragments
/// independently and concatenating equals lexing the joined text. Applied to
/// the substituted fragments, a successful preprocessing run therefore
/// yields exactly the plain lexing of the expanded source — the source with
/// every definition deleted and every call site replaced by its resolved
/// body — and in particular the same instruction count.
pub proof fn lemma_lex_frags_is_lex_of_expansion(frags: Seq<Seq<char>>, breakpoints: bool)
    ensures
        spec_lex_frags(frags, breakpoints) == spec_lex(spec_flatten(frags), breakpoints),
    decreases frags.len(),
{
    if frags.len() > 0 {
        lemma_lex_frags_is_lex_of_expansion(frags.drop_last(), breakpoints);
        lemma_lex_concat(spec_flatten(frags.drop_last()), frags.last(), breakpoints);
    }
}

/// Replaces every call-site token of each resolved macro in every fragment.
fn substitute_fragments(frags: Vec<Vec<char>>, processed: &Vec<(Vec<char>, Vec<char>)>) -> (r: Vec<
    Vec<char>,
>)
    ensures
        frags_view(r@) == spec_subst_frags(frags_view(frags@), table_view(processed@)),
{
    let ghost f0 = frags_view(frags@);
    let ghost tv = table_view(processed@);
    let mut cur = frags;
    let m = processed.len();
    let mut j: usize = 0;
    proof {
        assert(tv.skip(0) =~= tv);
    }
    while j < m
        invariant
            j <= m,
            m == processed@.len(),
            tv == table_view(processed@),
            spec_subst_frags(frags_view(cur@), tv.skip(j as int)) == spec_subst_frags(f0, tv),
        decreases m - j,
    {
        let ghost before = frags_view(cur@);
        let n = cur.len();
        let mut l: usize = 0;
        while l < n
            invariant
                l <= n,
                n == cur@.len(),
                j < m,
                m == processed@.len(),
                tv == table_view(processed@),
                before.len() == n,
                forall|x: int|
                    0 <= x < l ==> frags_view(cur@)[x] == spec_replace(
                        before[x],
                        tv[j as int].0,
                        tv[j as int].1,
                    ),
                forall|x: int| l <= x < n ==> frags_view(cur@)[x] == before[x],
            decreases n - l,
        {
            let rep = {
                let pair = &processed[j];
                replace_all(&cur[l], &pair.0, &pair.1)
            };
            let ghost cv = cur@;
            let ghost rv = rep@;
            cur[l] = rep;
            proof {
                assert(cur@[l as int]@ == rv);
                assert(rv == spec_replace(cv[l as int]@, tv[j as int].0, tv[j as int].1));
                assert forall|x: int|
                    0 <= x < l + 1 implies frags_view(cur@)[x] == spec_replace(
                    before[x],
                    tv[j as int].0,
                    tv[j as int].1,
                ) by {
                    assert(frags_view(cur@)[x] == cur@[x]@);
                    assert(frags_view(cv)[x] == cv[x]@);
                    if x != l {
                        assert(cur@[x] == cv[x]);
                    } else {
                        assert(cv[x]@ == before[x]);
                    }
                }
                assert forall|x: int| l + 1 <= x < n implies frags_view(cur@)[x] == before[x] by {
                    assert(cur@[x] == cv[x]);
                    assert(frags_view(cur@)[x] == cur@[x]@);
                    assert(frags_view(cv)[x] == cv[x]@);
                }
            }
            l = l + 1;
        }
        proof {
            assert(frags_view(cur@) =~= before.map_values(
                |f: Seq<char>| spec_replace(f, tv[j as int].0, tv[j as int].1),
            ));
            assert(tv.skip(j as int)[0] == tv[j as int]);
            assert(tv.skip(j as int).drop_first() =~= tv.skip(j + 1 as int));
        }
        j = j + 1;
    }
    proof {
        assert(tv.skip(m as int) =~= Seq::<(Seq<char>, Seq<char>)>::empty());
    }
    cur
}

/// Appends all of `src` onto `dst`.
fn extend_instructions(dst: &mut Vec<Instruction>, src: &Vec<Instruction>)
    ensures
        final(dst)@ == old(dst)@ + src@,
{
    let n = src.len();
    let mut j: usize = 0;
    while j < n
        invariant
            j <= n,
            n == src@.len(),
            dst@ == old(dst)@ + src@.take(j as int),
        decreases n - j,
    {
        dst.push(src[j]);
        proof {
            assert(old(dst)@ + src@.take(j + 1 as int) =~= (old(dst)@ + src@.take(j as int)).push(
                src@[j as int],
            ));
        }
        j = j + 1;
    }
    proof {
        assert(src@.take(n as int) =~= src@);
    }
}

/// Lexes each fragment and concatenates the instruction sequences in
/// fragment order.
fn lex_fragments(frags: &Vec<Vec<char>>, breakpoints: bool) -> (r: Vec<Instruction>)
    ensures
        r@ == spec_lex_frags(frags_view(frags@), breakpoints),
{
    let mut out: Vec<Instruction> = Vec::new();
    let n = frags.len();
    let mut i: usize = 0;
    proof {
        assert(out@ =~= Seq::<Instruction>::empty());
    }
    while i < n
        invariant
            i <= n,
            n == frags@.len(),
            out@ == spec_lex_frags(frags_view(frags@).take(i as int), breakpoints),
        decreases n - i,
    {
        let insts = parse_chars(&frags[i], breakpoints);
        extend_instructions(&mut out, &insts);
        proof {
            assert(frags_view(frags@).take(i + 1 as int).drop_last() =~= frags_view(frags@).take(
                i as int,
            ));
            assert(frags_view(frags@).take(i + 1 as int).last() == frags@[i as int]@);
        }
        i = i + 1;
    }
    proof {
        assert(frags_view(frags@).take(n as int) =~= frags_view(frags@));
    }
    out
}

/// What macro preprocessing yields on source text: split, resolve,
/// substitute, then lex each fragment and concatenate.
pub open spec fn spec_resolve_macros(s: Seq<char>, breakpoints: bool) -> Result<
    Seq<Instruction>,
    BfError,
> {
    match spec_split(s) {
        Err(e) => Err(e),
        Ok(pair) => match spec_resolve(pair.1, Seq::empty()) {
            Err(e) => Err(e),
            Ok(processed) => Ok(
                spec_lex_frags(spec_subst_frags(pair.0, processed), breakpoints),
            ),
        },
    }
}

/// A source without macro syntax is left alone: preprocessing a text that
/// holds no `{` and no `}` succeeds and yields exactly the plain lexing of
/// that text, so expansion-free programs keep their instruction sequence —
/// and in particular their instruction count — unchanged.
pub proof fn lemma_no_macro_source_lexes_plain(s: Seq<char>, breakpoints: bool)
    requires
        spec_find(s, '{', 0) is None,
        spec_find(s, '}', 0) is None,
    ensures
        spec_resolve_macros(s, breakpoints) matches Ok(r) && r == spec_lex(s, breakpoints),
{
    let empty_frags = Seq::<Seq<char>>::empty();
    let empty_tbl = Seq::<(Seq<char>, Seq<char>)>::empty();
    if s.len() == 0 {
        assert(spec_split(s) == Ok::<_, BfError>((empty_frags, empty_tbl)));
        assert(spec_resolve(empty_tbl, empty_tbl) == Ok::<_, BfError>(empty_tbl));
        assert(spec_subst_frags(empty_frags, empty_tbl) == empty_frags);
        assert(spec_lex_frags(empty_frags, breakpoints) =~= spec_lex(s, breakpoints));
    } else {
        assert(s.skip(0) =~= s);
        assert(spec_split(s) == Ok::<_, BfError>((empty_frags.push(s), empty_tbl)));
        assert(spec_resolve(empty_tbl, empty_tbl) == Ok::<_, BfError>(empty_tbl));
        assert(spec_subst_frags(empty_frags.push(s), empty_tbl) == empty_frags.push(s));
        assert(empty_frags.push(s).drop_last() =~= empty_frags);
        assert(empty_frags.push(s).last() == s);
        assert(spec_lex_frags(empty_frags.push(s), breakpoints) == spec_lex_frags(
            empty_frags,
            breakpoints,
        ) + spec_lex(s, breakpoints));
        assert(Seq::<Instruction>::empty() + spec_lex(s, breakpoints) =~= spec_lex(
            s,
            breakpoints,
        ));
    }
}

proof fn lemma_pass_kept_prefix(
    rem: MacroTable,
    snapshot: MacroTable,
    processed: MacroTable,
    kept: MacroTable,
)
    ensures
        spec_pass(rem, snapshot, processed, kept).1.len() >= kept.len(),
        forall|x: int|
            0 <= x < kept.len() ==> spec_pass(rem, snapshot, processed, kept).1[x] == kept[x],
    decreases rem.len(),
{
    if rem.len() > 0 {
        let entry = rem[0];
        if spec_body_ready(entry.1, snapshot) {
            lemma_pass_kept_prefix(
                rem.drop_first(),
                snapshot,
                processed.push((entry.0, spec_subst_all(entry.1, processed))),
                kept,
            );
        } else {
            lemma_pass_kept_prefix(rem.drop_first(), snapshot, processed, kept.push(entry));
            assert forall|x: int|
                0 <= x < kept.len() implies spec_pass(rem, snapshot, processed, kept).1[x]
                == kept[x] by {
                assert(spec_pass(rem, snapshot, processed, kept).1[x] == spec_pass(
                    rem.drop_first(),
                    snapshot,
                    processed,
                    kept.push(entry),
                ).1[x]);
                assert(kept.push(entry)[x] == kept[x]);
            }
        }
    }
}

proof fn lemma_pass_keeps_unready(
    rem: MacroTable,
    snapshot: MacroTable,
    processed: MacroTable,
    kept: MacroTable,
    i: int,
)
    requires
        0 <= i < rem.len(),
        !spec_body_ready(rem[i].1, snapshot),
    ensures
        exists|x: int|
            0 <= x < spec_pass(rem, snapshot, processed, kept).1.len() && spec_pass(
                rem,
                snapshot,
                processed,
                kept,
            ).1[x] == rem[i],
    decreases rem.len(),
{
    let entry = rem[0];
    if i == 0 {
        lemma_pass_kept_prefix(rem.drop_first(), snapshot, processed, kept.push(entry));
        assert(spec_pass(rem, snapshot, processed, kept) == spec_pass(
            rem.drop_first(),
            snapshot,
            processed,
            kept.push(entry),
        ));
        assert(spec_pass(rem.drop_first(), snapshot, processed, kept.push(entry)).1[kept.len()
            as int] == kept.push(entry)[kept.len() as int]);
        assert(kept.push(entry)[kept.len() as int] == entry);
        assert(spec_pass(rem, snapshot, processed, kept).1.len() >= kept.len() + 1);
        assert((kept.len() as int) < spec_pass(rem, snapshot, processed, kept).1.len() && spec_pass(
            rem,
            snapshot,
            processed,
            kept,
        ).1[kept.len() as int] == rem[i]);
    } else {
        assert(rem.drop_first()[i - 1] == rem[i]);
        if spec_body_ready(entry.1, snapshot) {
            lemma_pass_keeps_unready(
                rem.drop_first(),
                snapshot,
                processed.push((entry.0, spec_subst_all(entry.1, processed))),
                kept,
                i - 1,
            );
            let sub = spec_pass(
                rem.drop_first(),
                snapshot,
                processed.push((entry.0, spec_subst_all(entry.1, processed))),
                kept,
            );
            assert(spec_pass(rem, snapshot, processed, kept) == sub);
            let w = choose|x: int| 0 <= x < sub.1.len() && sub.1[x] == rem.drop_first()[i - 1];
            assert(0 <= w < spec_pass(rem, snapshot, processed, kept).1.len() && spec_pass(
                rem,
                snapshot,
                processed,
                kept,
            ).1[w] == rem[i]);
        } else {
            lemma_pass_keeps_unready(rem.drop_first(), snapshot, processed, kept.push(entry), i - 1);
            let sub = spec_pass(rem.drop_first(), snapshot, processed, kept.push(entry));
            assert(spec_pass(rem, snapshot, processed, kept) == sub);
            let w = choose|x: int| 0 <= x < sub.1.len() && sub.1[x] == rem.drop_first()[i - 1];
            assert(0 <= w < spec_pass(rem, snapshot, processed, kept).1.len() && spec_pass(
                rem,
                snapshot,
                processed,
                kept,
            ).1[w] == rem[i]);
        }
    }
}

/// Any circle of macro references is rejected, whatever its length: given
/// table indices `cyc[0], …, cyc[k-1]` where each macro's body references
/// the next one around the circle, no member can ever become resolvable,
/// and resolution fails with `RecursiveMacroReference`.
pub proof fn lemma_macro_reference_cycle_rejected(
    tbl: MacroTable,
    processed: MacroTable,
    cyc: Seq<int>,
)
    requires
        cyc.len() > 0,
        forall|t: int| 0 <= t < cyc.len() ==> 0 <= #[trigger] cyc[t] < tbl.len(),
        forall|t: int|
            0 <= t < cyc.len() ==> spec_has_sub(
                tbl[#[trigger] cyc[t]].1,
                tbl[cyc[if t + 1 < cyc.len() {
                    t + 1
                } else {
                    0
                }]].0,
            ),
    ensures
        spec_resolve(tbl, processed) matches Err(e) && e == BfError::RecursiveMacroReference,
    decreases tbl.len(),
{
    let empty_tbl = Seq::<(Seq<char>, Seq<char>)>::empty();
    assert(0 <= cyc[0] < tbl.len());
    let pr = spec_pass(tbl, tbl, processed, empty_tbl);
    lemma_pass_lens(tbl, tbl, processed, empty_tbl);
    if pr.1.len() == tbl.len() {
    } else {
        assert forall|t: int| 0 <= t < cyc.len() implies !spec_body_ready(tbl[cyc[t]].1, tbl) by {
            let nt = if t + 1 < cyc.len() {
                t + 1
            } else {
                0
            };
            assert(spec_has_sub(tbl[cyc[t]].1, tbl[cyc[nt]].0));
        }
        let cyc2 = Seq::new(
            cyc.len(),
            |t: int| choose|x: int| 0 <= x < pr.1.len() && pr.1[x] == tbl[cyc[t]],
        );
        assert forall|t: int|
            0 <= t < cyc.len() implies 0 <= #[trigger] cyc2[t] < pr.1.len() && pr.1[cyc2[t]]
            == tbl[cyc[t]] by {
            assert(!spec_body_ready(tbl[cyc[t]].1, tbl));
            lemma_pass_keeps_unready(tbl, tbl, processed, empty_tbl, cyc[t]);
        }
        assert forall|t: int|
            0 <= t < cyc2.len() implies spec_has_sub(
            pr.1[#[trigger] cyc2[t]].1,
            pr.1[cyc2[if t + 1 < cyc2.len() {
                t + 1
            } else {
                0
            }]].0,
        ) by {
            let nt = if t + 1 < cyc.len() {
                t + 1
            } else {
                0
            };
            assert(pr.1[cyc2[t]] == tbl[cyc[t]]);
            assert(pr.1[cyc2[nt]] == tbl[cyc[nt]]);
        }
        lemma_macro_reference_cycle_rejected(pr.1, pr.0, cyc2);
    }
}

/// Recursive macro references are rejected: when the body of macro `a`
/// references macro `b` and the body of `b` references `a` (with `a == b`
/// covering a macro that references itself), neither can ever be resolved,
/// and resolution fails with `RecursiveMacroReference`.
pub proof fn lemma_macro_cycle_rejected(tbl: MacroTable, processed: MacroTable, a: int, b: int)
    requires
        0 <= a < tbl.len(),
        0 <= b < tbl.len(),
        spec_has_sub(tbl[a].1, tbl[b].0),
        spec_has_sub(tbl[b].1, tbl[a].0),
    ensures
        spec_resolve(tbl, processed) matches Err(e) && e == BfError::RecursiveMacroReference,
{
    let cyc = seq![a, b];
    assert forall|t: int| 0 <= t < cyc.len() implies 0 <= #[trigger] cyc[t] < tbl.len() by {
        assert(cyc[0] == a && cyc[1] == b);
    }
    assert forall|t: int|
        0 <= t < cyc.len() implies spec_has_sub(
        tbl[#[trigger] cyc[t]].1,
        tbl[cyc[if t + 1 < cyc.len() {
            t + 1
        } else {
            0
        }]].0,
    ) by {
        assert(cyc[0] == a && cyc[1] == b);
    }
    lemma_macro_reference_cycle_rejected(tbl, processed, cyc);
}

/// Preprocesses macros in `code` and lexes the result.
///
/// Source is split on `{` / `}` into call-site fragments and named macro
/// bodies; a `}` without a partner — so any source whose `{` / `}` counts
/// disagree — reports `UnmatchedBrace`. Bodies are resolved in dependency
/// order (a cycle reports `RecursiveMacroReference`), substituted into the
/// fragments, and the fragments are lexed independently and concatenated in
/// source order. Fails exactly when [`spec_resolve_macros`] does, with the
/// same error kind.
pub fn parse_string_macros(code: &str, breakpoints: bool) -> (r: Result<Vec<Instruction>, BfError>)
    ensures
        match r {
            Ok(v) => spec_resolve_macros(code@, breakpoints) matches Ok(s) && v@ == s,
            Err(e) => spec_resolve_macros(code@, breakpoints) matches Err(e2) && e2 == e,
        },
{
    let chars = chars_vec(code);
    match split_source(&chars) {
        Err(e) => Err(e),
        Ok(pair) => {
            let (frags, tbl) = pair;
            match resolve_table(tbl) {
                Err(e) => Err(e),
                Ok(processed) => {
                    let substituted = substitute_fragments(frags, &processed);
                    Ok(lex_fragments(&substituted, breakpoints))
                },
            }
        },
    }
}

} // verus!

//! Selector scoper: a token-classification state machine over plain
//! style-sheet text. Class selectors (`.name`) are rewritten into
//! file-scoped names (`.key-name`); declaration blocks are copied verbatim;
//! every rewrite is recorded as a binding from the original name to the
//! scoped one, in order of appearance.

use vstd::prelude::*;
use vstd::string::*;

verus! {

/// A character that may appear in a selector identifier: ASCII letters,
/// digits, underscore and hyphen. A maximal run of these characters forms
/// one identifier token; every other character is a one-character token.
pub open spec fn is_ident_char(c: char) -> bool {
    ('a' <= c && c <= 'z') || ('A' <= c && c <= 'Z') || ('0' <= c && c <= '9') || c == '_' || c
        == '-'
}

/// Executable identifier-character test.
pub fn ident_char(c: char) -> (b: bool)
    ensures
        b == is_ident_char(c),
{
    ('a' <= c && c <= 'z') || ('A' <= c && c <= 'Z') || ('0' <= c && c <= '9') || c == '_' || c
        == '-'
}

/// The scoped replacement for a class name: `key`, a hyphen, then the
/// original identifier.
pub open spec fn scoped_name(key: Seq<char>, ident: Seq<char>) -> Seq<char> {
    key + seq!['-'] + ident
}

/// State of the scoping machine after some prefix of the input.
///
/// `in_class` is set by a `.` at the top level and cleared only when a
/// declaration block closes, so every identifier between a dot and the next
/// block is treated as a class name (the flag is deliberately not cleared
/// after one identifier). `depth` counts open declaration blocks; all text
/// inside a block is copied verbatim. `pending` is the identifier run
/// currently being read; it is emitted as one token when a non-identifier
/// character or the end of the input follows it.
pub struct ScoperState {
    pub in_class: bool,
    pub depth: nat,
    pub pending: Seq<char>,
    pub binds: Seq<(Seq<char>, Seq<char>)>,
    pub out: Seq<char>,
}

/// The machine's initial state: top level, not in class position.
pub open spec fn init_state() -> ScoperState {
    ScoperState {
        in_class: false,
        depth: 0,
        pending: Seq::empty(),
        binds: Seq::empty(),
        out: Seq::empty(),
    }
}

/// Emit the pending identifier run, if any: verbatim outside class
/// position, or as `.key-ident` plus a recorded binding in class position.
pub open spec fn flush(key: Seq<char>, st: ScoperState) -> ScoperState {
    if st.pending.len() == 0 {
        st
    } else if st.in_class {
        ScoperState {
            pending: Seq::empty(),
            binds: st.binds.push((st.pending, scoped_name(key, st.pending))),
            out: st.out + seq!['.'] + scoped_name(key, st.pending),
            ..st
        }
    } else {
        ScoperState { pending: Seq::empty(), out: st.out + st.pending, ..st }
    }
}

/// One transition of the machine on the next input character.
pub open spec fn step(key: Seq<char>, st: ScoperState, c: char) -> ScoperState {
    if st.depth > 0 {
        if c == '{' {
            ScoperState { depth: st.depth + 1, out: st.out.push(c), ..st }
        } else if c == '}' {
            if st.depth == 1 {
                ScoperState { depth: 0, in_class: false, out: st.out.push(c), ..st }
            } else {
                ScoperState { depth: (st.depth - 1) as nat, out: st.out.push(c), ..st }
            }
        } else {
            ScoperState { out: st.out.push(c), ..st }
        }
    } else if is_ident_char(c) {
        ScoperState { pending: st.pending.push(c), ..st }
    } else {
        let fl = flush(key, st);
        if c == '.' {
            ScoperState { in_class: true, ..fl }
        } else if c == '{' {
            ScoperState { depth: 1, out: fl.out.push(c), ..fl }
        } else {
            ScoperState { out: fl.out.push(c), ..fl }
        }
    }
}

/// The machine run over a whole input, character by character.
pub open spec fn run(key: Seq<char>, st: ScoperState, s: Seq<char>) -> ScoperState
    decreases s.len(),
{
    if s.len() == 0 {
        st
    } else {
        step(key, run(key, st, s.drop_last()), s.last())
    }
}

/// What scoping an input yields: `None` on an unterminated block, otherwise
/// the recorded bindings and the rewritten text.
pub open spec fn scope_result(key: Seq<char>, s: Seq<char>) -> Option<
    (Seq<(Seq<char>, Seq<char>)>, Seq<char>),
> {
    let st = run(key, init_state(), s);
    if st.depth > 0 {
        None
    } else {
        let fl = flush(key, st);
        Some((fl.binds, fl.out))
    }
}

/// One recorded rewrite: the class name as written in the source and the
/// file-scoped name that replaced it.
#[derive(Clone, Debug)]
pub struct ClassBinding {
    pub original: String,
    pub scoped: String,
}

impl View for ClassBinding {
    type V = (Seq<char>, Seq<char>);

    open spec fn view(&self) -> (Seq<char>, Seq<char>) {
        (self.original@, self.scoped@)
    }
}

/// The recorded bindings as the pairs of character sequences they stand for.
pub open spec fn bindings_view(bs: Seq<ClassBinding>) -> Seq<(Seq<char>, Seq<char>)> {
    bs.map_values(|b: ClassBinding| b@)
}

/// Failure of the scoping stage: an unterminated declaration block.
#[derive(Clone, Debug)]
pub struct ScopeError {
    pub message: String,
}

/// Emit the identifier run `css[run_start..end]` exactly as `flush` does on
/// the corresponding machine state.
fn flush_run(
    scope_key: &str,
    css: &str,
    run_start: usize,
    end: usize,
    in_class: bool,
    out: &mut String,
    binds: &mut Vec<ClassBinding>,
)
    requires
        run_start <= end <= css@.len(),
    ensures
        ({
            let st = (ScoperState {
                in_class: in_class,
                depth: 0,
                pending: css@.subrange(run_start as int, end as int),
                binds: bindings_view(old(binds)@),
                out: old(out)@,
            });
            let fl = flush(scope_key@, st);
            bindings_view(final(binds)@) == fl.binds && final(out)@ == fl.out
        }),
{
    proof {
        reveal_strlit("-");
        reveal_strlit(".");
    }
    if run_start < end {
        let ident = css.substring_char(run_start, end);
        if in_class {
            let mut scoped = String::from_str(scope_key);
            scoped.append("-");
            scoped.append(ident);
            assert(scoped@ =~= scoped_name(scope_key@, ident@));
            out.append(".");
            out.append(scoped.as_str());
            let binding = ClassBinding { original: ident.to_owned(), scoped };
            binds.push(binding);
            assert(out@ =~= old(out)@ + seq!['.'] + scoped_name(scope_key@, ident@));
            assert(bindings_view(binds@) =~= bindings_view(old(binds)@).push(
                (ident@, scoped_name(scope_key@, ident@)),
            ));
        } else {
            out.append(ident);
        }
    } else {
        assert(css@.subrange(run_start as int, end as int) =~= Seq::<char>::empty());
    }
}

/// Rewrite plain style-sheet text, replacing every class selector `.name`
/// by `.scope_key-name`, copying declaration blocks verbatim, and recording
/// each rewrite in order of appearance. Fails exactly when a declaration
/// block is left unterminated.
pub fn scope(scope_key: &str, css: &str) -> (r: Result<(Vec<ClassBinding>, String), ScopeError>)
    ensures
        match r {
            Ok(p) => scope_result(scope_key@, css@) == Some((bindings_view(p.0@), p.1@)),
            Err(_) => scope_result(scope_key@, css@) is None,
        },
{
    let n = css.unicode_len();
    let mut out = String::new();
    let mut binds: Vec<ClassBinding> = Vec::new();
    let mut in_class = false;
    let mut depth: usize = 0;
    let mut run_start: usize = 0;
    let mut i: usize = 0;
    while i < n
        invariant
            n == css@.len(),
            i <= n,
            run_start <= i,
            depth <= i,
            ({
                let st = run(scope_key@, init_state(), css@.take(i as int));
                &&& st.in_class == in_class
                &&& st.depth == depth as nat
                &&& st.pending == css@.subrange(run_start as int, i as int)
                &&& st.binds == bindings_view(binds@)
                &&& st.out == out@
                &&& (depth > 0 ==> run_start == i)
            }),
        decreases n - i,
    {
        let ghost pre = run(scope_key@, init_state(), css@.take(i as int));
        let c = css.get_char(i);
        proof {
            assert(css@.take(i + 1).drop_last() =~= css@.take(i as int));
            assert(css@.take(i + 1).last() == c);
            assert(run(scope_key@, init_state(), css@.take(i + 1)) == step(scope_key@, pre, c));
        }
        if depth > 0 {
            out.append(css.substring_char(i, i + 1));
            proof {
                assert(out@ =~= pre.out.push(c));
            }
            if c == '{' {
                depth = depth + 1;
            } else if c == '}' {
                depth = depth - 1;
                if depth == 0 {
                    in_class = false;
                }
            }
            run_start = i + 1;
            proof {
                assert(css@.subrange(i + 1, i + 1) =~= Seq::<char>::empty());
            }
        } else if ident_char(c) {
            proof {
                assert(css@.subrange(run_start as int, i + 1) =~= pre.pending.push(c));
            }
        } else {
            flush_run(scope_key, css, run_start, i, in_class, &mut out, &mut binds);
            let ghost fl = flush(scope_key@, pre);
            proof {
                assert((ScoperState {
                    in_class: in_class,
                    depth: 0,
                    pending: css@.subrange(run_start as int, i as int),
                    binds: pre.binds,
                    out: pre.out,
                }) == pre);
            }
            if c == '.' {
                in_class = true;
            } else if c == '{' {
                depth = 1;
                out.append("{");
                proof {
                    reveal_strlit("{");
                    assert(out@ =~= fl.out.push(c));
                }
            } else {
                out.append(css.substring_char(i, i + 1));
                proof {
                    assert(out@ =~= fl.out.push(c));
                }
            }
            run_start = i + 1;
            proof {
                assert(css@.subrange(i + 1, i + 1) =~= Seq::<char>::empty());
            }
        }
        i = i + 1;
    }
    proof {
        assert(css@.take(n as int) =~= css@);
    }
    if depth > 0 {
        Err(ScopeError { message: String::from_str("unterminated declaration block") })
    } else {
        flush_run(scope_key, css, run_start, n, in_class, &mut out, &mut binds);
        let ghost st = run(scope_key@, init_state(), css@);
        proof {
            assert((ScoperState {
                in_class: in_class,
                depth: 0,
                pending: css@.subrange(run_start as int, n as int),
                binds: st.binds,
                out: st.out,
            }) == st);
        }
        Ok((binds, out))
    }
}

proof fn lemma_run_binds_scoped(key: Seq<char>, st: ScoperState, s: Seq<char>)
    requires
        forall|i: int|
            0 <= i < st.binds.len() ==> st.binds[i].1 == scoped_name(key, st.binds[i].0),
    ensures
        forall|i: int|
            0 <= i < run(key, st, s).binds.len() ==> run(key, st, s).binds[i].1 == scoped_name(
                key,
                run(key, st, s).binds[i].0,
            ),
    decreases s.len(),
{
    if s.len() > 0 {
        lemma_run_binds_scoped(key, st, s.drop_last());
        let prev = run(key, st, s.drop_last());
        let cur = run(key, st, s);
        assert forall|i: int| 0 <= i < cur.binds.len() implies cur.binds[i].1 == scoped_name(
            key,
            cur.binds[i].0,
        ) by {
            if i < prev.binds.len() {
                assert(cur.binds[i] == prev.binds[i]);
            }
        }
    }
}

/// Law: every class binding that scoping records pairs an original class
/// name `x` with exactly `scope_key + "-" + x`.
pub proof fn lemma_bindings_scoped(key: Seq<char>, s: Seq<char>)
    ensures
        scope_result(key, s) matches Some(r) ==> forall|i: int|
            0 <= i < r.0.len() ==> r.0[i].1 == scoped_name(key, r.0[i].0),
{
    lemma_run_binds_scoped(key, init_state(), s);
}

/// Law: distinct scope keys scope the same class name to distinct names,
/// so two source units whose identities derive different keys cannot
/// collide on any class.
pub proof fn lemma_scoped_name_unique(key1: Seq<char>, key2: Seq<char>, x: Seq<char>)
    requires
        key1 != key2,
    ensures
        scoped_name(key1, x) != scoped_name(key2, x),
{
    if scoped_name(key1, x) == scoped_name(key2, x) {
        assert(scoped_name(key1, x).len() == key1.len() + 1 + x.len());
        assert(scoped_name(key2, x).len() == key2.len() + 1 + x.len());
        assert(key1.len() == key2.len());
        assert(key1 =~= key2) by {
            assert forall|i: int| 0 <= i < key1.len() implies key1[i] == key2[i] by {
                assert(scoped_name(key1, x)[i] == key1[i]);
                assert(scoped_name(key2, x)[i] == key2[i]);
            }
        }
    }
}

proof fn lemma_run_append(key: Seq<char>, st: ScoperState, a: Seq<char>, b: Seq<char>)
    ensures
        run(key, st, a + b) == run(key, run(key, st, a), b),
    decreases b.len(),
{
    if b.len() == 0 {
        assert(a + b =~= a);
    } else {
        lemma_run_append(key, st, a, b.drop_last());
        assert((a + b).drop_last() =~= a + b.drop_last());
        assert((a + b).last() == b.last());
    }
}

proof fn lemma_run_idents(key: Seq<char>, st: ScoperState, x: Seq<char>)
    requires
        st.depth == 0,
        forall|i: int| 0 <= i < x.len() ==> is_ident_char(#[trigger] x[i]),
    ensures
        run(key, st, x) == (ScoperState { pending: st.pending + x, ..st }),
    decreases x.len(),
{
    if x.len() == 0 {
        assert(st.pending + x =~= st.pending);
    } else {
        lemma_run_idents(key, st, x.drop_last());
        assert(x.drop_last() + seq![x.last()] =~= x);
        assert(st.pending + x =~= (st.pending + x.drop_last()).push(x.last()));
        assert(run(key, st, x) == step(key, run(key, st, x.drop_last()), x.last()));
    }
}

proof fn lemma_run_verbatim(key: Seq<char>, st: ScoperState, body: Seq<char>)
    requires
        st.depth > 0,
        forall|i: int| 0 <= i < body.len() ==> #[trigger] body[i] != '{' && body[i] != '}',
    ensures
        run(key, st, body) == (ScoperState { out: st.out + body, ..st }),
    decreases body.len(),
{
    if body.len() == 0 {
        assert(st.out + body =~= st.out);
    } else {
        lemma_run_verbatim(key, st, body.drop_last());
        assert(st.out + body =~= (st.out + body.drop_last()).push(body.last()));
        assert(run(key, st, body) == step(key, run(key, st, body.drop_last()), body.last()));
    }
}

/// One selector-and-block rule `.x{body}` in source form.
pub open spec fn rule_text(x: Seq<char>, body: Seq<char>) -> Seq<char> {
    seq!['.'] + x + seq!['{'] + body + seq!['}']
}

/// The same rule after scoping: `.key-x{body}`.
pub open spec fn scoped_rule_text(key: Seq<char>, x: Seq<char>, body: Seq<char>) -> Seq<char> {
    seq!['.'] + scoped_name(key, x) + seq!['{'] + body + seq!['}']
}

/// A simple rule: a nonempty identifier as its class name, and a
/// declaration block that holds no braces of its own.
pub open spec fn simple_rule(x: Seq<char>, body: Seq<char>) -> bool {
    &&& x.len() > 0
    &&& forall|i: int| 0 <= i < x.len() ==> is_ident_char(#[trigger] x[i])
    &&& forall|i: int| 0 <= i < body.len() ==> #[trigger] body[i] != '{' && body[i] != '}'
}

/// Running the machine over one simple rule, from any state at the top
/// level with no identifier pending: it records exactly one binding and
/// appends exactly the scoped rule to the output.
proof fn lemma_run_rule(key: Seq<char>, st: ScoperState, x: Seq<char>, body: Seq<char>)
    requires
        st.depth == 0,
        st.pending.len() == 0,
        simple_rule(x, body),
    ensures
        run(key, st, rule_text(x, body)) == (ScoperState {
            in_class: false,
            depth: 0,
            pending: Seq::empty(),
            binds: st.binds.push((x, scoped_name(key, x))),
            out: st.out + scoped_rule_text(key, x, body),
        }),
{
    let a1 = seq!['.'];
    let a2 = a1 + x;
    let a3 = a2 + seq!['{'];
    let a4 = a3 + body;
    let full = a4 + seq!['}'];
    assert(rule_text(x, body) =~= full);

    assert(a1.len() == 1 && a1.last() == '.');
    assert(a1.drop_last() =~= Seq::<char>::empty());
    assert(run(key, st, a1.drop_last()) == st);
    assert(run(key, st, a1) == step(key, st, '.'));
    let st1 = run(key, st, a1);
    assert(st1 == (ScoperState { in_class: true, ..st }));

    lemma_run_append(key, st, a1, x);
    lemma_run_idents(key, st1, x);
    let st2 = run(key, st, a2);
    assert(st2.pending =~= x);
    assert(st2 == (ScoperState { in_class: true, pending: x, ..st }));

    lemma_run_append(key, st, a2, seq!['{']);
    assert(seq!['{'].len() == 1 && seq!['{'].last() == '{');
    assert(seq!['{'].drop_last() =~= Seq::<char>::empty());
    assert(run(key, st2, seq!['{'].drop_last()) == st2);
    assert(run(key, st2, seq!['{']) == step(key, st2, '{'));
    let st3 = run(key, st, a3);
    assert(st3.binds == st.binds.push((x, scoped_name(key, x))));
    assert(st3.out =~= st.out + seq!['.'] + scoped_name(key, x) + seq!['{']);
    assert(st3.depth == 1 && st3.pending.len() == 0);

    lemma_run_append(key, st, a3, body);
    lemma_run_verbatim(key, st3, body);
    let st4 = run(key, st, a4);
    assert(st4.out == st3.out + body);

    lemma_run_append(key, st, a4, seq!['}']);
    assert(seq!['}'].len() == 1 && seq!['}'].last() == '}');
    assert(seq!['}'].drop_last() =~= Seq::<char>::empty());
    assert(run(key, st4, seq!['}'].drop_last()) == st4);
    assert(run(key, st4, seq!['}']) == step(key, st4, '}'));
    let st5 = run(key, st, full);
    assert(st5.out =~= st.out + scoped_rule_text(key, x, body));
    assert(st5.pending =~= Seq::<char>::empty());
}

/// A sequence of rules in source form, concatenated.
pub open spec fn rules_text(rs: Seq<(Seq<char>, Seq<char>)>) -> Seq<char>
    decreases rs.len(),
{
    if rs.len() == 0 {
        Seq::empty()
    } else {
        rules_text(rs.drop_last()) + rule_text(rs.last().0, rs.last().1)
    }
}

/// The same rules after scoping, concatenated.
pub open spec fn scoped_rules_text(key: Seq<char>, rs: Seq<(Seq<char>, Seq<char>)>) -> Seq<char>
    decreases rs.len(),
{
    if rs.len() == 0 {
        Seq::empty()
    } else {
        scoped_rules_text(key, rs.drop_last()) + scoped_rule_text(
            key,
            rs.last().0,
            rs.last().1,
        )
    }
}

/// One binding per rule, in rule order.
pub open spec fn rule_bindings(key: Seq<char>, rs: Seq<(Seq<char>, Seq<char>)>) -> Seq<
    (Seq<char>, Seq<char>),
> {
    rs.map_values(|r: (Seq<char>, Seq<char>)| (r.0, scoped_name(key, r.0)))
}

proof fn lemma_run_rules(key: Seq<char>, st: ScoperState, rs: Seq<(Seq<char>, Seq<char>)>)
    requires
        st.depth == 0,
        st.pending.len() == 0,
        forall|i: int| 0 <= i < rs.len() ==> simple_rule(#[trigger] rs[i].0, rs[i].1),
    ensures
        run(key, st, rules_text(rs)) == (ScoperState {
            in_class: if rs.len() == 0 {
                st.in_class
            } else {
                false
            },
            depth: 0,
            pending: Seq::empty(),
            binds: st.binds + rule_bindings(key, rs),
            out: st.out + scoped_rules_text(key, rs),
        }),
    decreases rs.len(),
{
    if rs.len() == 0 {
        assert(rules_text(rs) =~= Seq::<char>::empty());
        assert(run(key, st, rules_text(rs)) == st);
        assert(st.binds + rule_bindings(key, rs) =~= st.binds);
        assert(st.out + scoped_rules_text(key, rs) =~= st.out);
        assert(st.pending =~= Seq::<char>::empty());
    } else {
        lemma_run_rules(key, st, rs.drop_last());
        let mid = run(key, st, rules_text(rs.drop_last()));
        lemma_run_append(key, st, rules_text(rs.drop_last()), rule_text(rs.last().0, rs.last().1));
        lemma_run_rule(key, mid, rs.last().0, rs.last().1);
        assert(st.binds + rule_bindings(key, rs) =~= (st.binds + rule_bindings(
            key,
            rs.drop_last(),
        )).push((rs.last().0, scoped_name(key, rs.last().0))));
        assert(st.out + scoped_rules_text(key, rs) =~= (st.out + scoped_rules_text(
            key,
            rs.drop_last(),
        )) + scoped_rule_text(key, rs.last().0, rs.last().1));
    }
}

/// Law: scoping any concatenation of simple rules `.x1{b1}.x2{b2}...`
/// yields exactly one binding `(xi, key-xi)` per rule, in order, and the
/// concatenation of the rewritten rules `.key-xi{bi}`: each class selector
/// is substituted at its own position and each block's content is
/// preserved unchanged.
pub proof fn lemma_rule_sequence(key: Seq<char>, rs: Seq<(Seq<char>, Seq<char>)>)
    requires
        forall|i: int| 0 <= i < rs.len() ==> simple_rule(#[trigger] rs[i].0, rs[i].1),
    ensures
        scope_result(key, rules_text(rs)) == Some(
            (rule_bindings(key, rs), scoped_rules_text(key, rs)),
        ),
{
    lemma_run_rules(key, init_state(), rs);
    let st = run(key, init_state(), rules_text(rs));
    assert(st.binds =~= rule_bindings(key, rs));
    assert(st.out =~= scoped_rules_text(key, rs));
}

/// Law: scoping the single rule `.x{body}` — with `x` a nonempty
/// identifier and a brace-free declaration block — yields exactly one
/// binding `(x, key-x)` and the text `.key-x{body}`.
pub proof fn lemma_single_rule(key: Seq<char>, x: Seq<char>, body: Seq<char>)
    requires
        simple_rule(x, body),
    ensures
        scope_result(key, seq!['.'] + x + seq!['{'] + body + seq!['}']) == Some(
            (
                seq![(x, scoped_name(key, x))],
                seq!['.'] + scoped_name(key, x) + seq!['{'] + body + seq!['}'],
            ),
        ),
{
    let rs = seq![(x, body)];
    lemma_rule_sequence(key, rs);
    assert(rs.len() == 1 && rs.last() == (x, body));
    assert(rs.drop_last() =~= Seq::<(Seq<char>, Seq<char>)>::empty());
    assert(rules_text(rs.drop_last()) == Seq::<char>::empty());
    assert(scoped_rules_text(key, rs.drop_last()) == Seq::<char>::empty());
    assert(rules_text(rs) == rules_text(rs.drop_last()) + rule_text(x, body));
    assert(scoped_rules_text(key, rs) == scoped_rules_text(key, rs.drop_last())
        + scoped_rule_text(key, x, body));
    assert(rules_text(rs) =~= rule_text(x, body));
    assert(scoped_rules_text(key, rs) =~= scoped_rule_text(key, x, body));
    assert(rule_bindings(key, rs) =~= seq![(x, scoped_name(key, x))]);
    assert(rule_text(x, body) =~= seq!['.'] + x + seq!['{'] + body + seq!['}']);
    assert(scoped_rule_text(key, x, body) =~= seq!['.'] + scoped_name(key, x) + seq!['{'] + body
        + seq!['}']);
}

} // verus!

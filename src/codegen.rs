//! The code generator: lowers a tree into create / mount / destroy
//! statements, gives each plain element a fresh local name, keeps the set of
//! runtime helpers that the statements call, and renders the module text.
use crate::ast::{AttrValue, Attribute, ElemTy, Node};
use crate::chars::{is_space, is_space_exec, lemma_space_end, skip_space, space_end};
use crate::markup::{attrs_view, AttrV};
use vstd::prelude::*;
use vstd::string::*;

verus! {

/// The state of one compilation, as values.
pub struct UnitV {
    pub in_script: bool,
    pub in_style: bool,
    pub script: Seq<char>,
    pub style: Seq<char>,
    pub create: Seq<char>,
    pub mount: Seq<char>,
    /// Runtime helpers in the order they were first needed.
    pub imports: Seq<Seq<char>>,
    /// For each tag name, the last instance number given.
    pub counters: Seq<(Seq<char>, nat)>,
    /// Every local variable declared, as tag name and instance number.
    pub vars: Seq<(Seq<char>, nat)>,
    /// How many attribute statements were emitted.
    pub attr_stmts: nat,
}

/// The compile unit: the accumulated state of generating one module.
pub struct Parser {
    in_script: bool,
    in_style: bool,
    script: String,
    style: String,
    create_fn: String,
    mount_fn: String,
    internal_imports: Vec<String>,
    elem_vars: Vec<(String, usize)>,
    vars: Vec<(String, usize)>,
    attr_stmts: Ghost<nat>,
}

pub open spec fn pairs_view(v: Seq<(String, usize)>) -> Seq<(Seq<char>, nat)> {
    v.map_values(|p: (String, usize)| (p.0@, p.1 as nat))
}

pub open spec fn names_view(v: Seq<String>) -> Seq<Seq<char>> {
    v.map_values(|x: String| x@)
}

impl View for Parser {
    type V = UnitV;

    closed spec fn view(&self) -> UnitV {
        UnitV {
            in_script: self.in_script,
            in_style: self.in_style,
            script: self.script@,
            style: self.style@,
            create: self.create_fn@,
            mount: self.mount_fn@,
            imports: names_view(self.internal_imports@),
            counters: pairs_view(self.elem_vars@),
            vars: pairs_view(self.vars@),
            attr_stmts: self.attr_stmts@,
        }
    }
}

/// The last index of `cs` whose tag is `t`, or -1.
pub open spec fn find_tag(cs: Seq<(Seq<char>, nat)>, t: Seq<char>) -> int
    decreases cs.len(),
{
    if cs.len() == 0 {
        -1
    } else if cs.last().0 == t {
        cs.len() - 1
    } else {
        find_tag(cs.drop_last(), t)
    }
}

/// The counter kept for tag `t`: 0 when there is none.
pub open spec fn counter_of(cs: Seq<(Seq<char>, nat)>, t: Seq<char>) -> nat {
    if find_tag(cs, t) >= 0 {
        cs[find_tag(cs, t)].1
    } else {
        0
    }
}

/// The counters with the one of `t` set to `c`.
pub open spec fn set_counter(cs: Seq<(Seq<char>, nat)>, t: Seq<char>, c: nat) -> Seq<(Seq<char>, nat)> {
    if find_tag(cs, t) >= 0 {
        cs.update(find_tag(cs, t), (t, c))
    } else {
        cs.push((t, c))
    }
}

/// How many entries of `vars` have the tag `t`.
pub open spec fn count_tag(vars: Seq<(Seq<char>, nat)>, t: Seq<char>) -> nat
    decreases vars.len(),
{
    if vars.len() == 0 {
        0
    } else {
        count_tag(vars.drop_last(), t) + if vars.last().0 == t {
            1nat
        } else {
            0nat
        }
    }
}

/// `imports` with `h` added at the end unless it is there.
pub open spec fn add_import(imports: Seq<Seq<char>>, h: Seq<char>) -> Seq<Seq<char>> {
    if imports.contains(h) {
        imports
    } else {
        imports.push(h)
    }
}

/// `imports` with each of `hs` added in turn.
pub open spec fn add_all(imports: Seq<Seq<char>>, hs: Seq<Seq<char>>) -> Seq<Seq<char>>
    decreases hs.len(),
{
    if hs.len() == 0 {
        imports
    } else {
        add_import(add_all(imports, hs.drop_last()), hs.last())
    }
}

/// The helpers that every rendered module calls.
pub open spec fn base_helper(h: Seq<char>) -> bool {
    h == "SvelteComponent"@ || h == "init"@ || h == "safe_not_equal"@ || h == "noop"@
}

/// `h` is called by the module rendered from `u`.
pub open spec fn helper_used(u: UnitV, h: Seq<char>) -> bool {
    ||| base_helper(h)
    ||| ((h == "element"@ || h == "insert"@ || h == "detach"@) && u.vars.len() > 0)
    ||| (h == "attr"@ && u.attr_stmts > 0)
}

/// The invariant of a compile unit: imports are distinct and each is
/// called; the counter of each tag is the number of its variables; the
/// variable declared `p`-th has the number of earlier variables of its tag,
/// plus one.
pub open spec fn wf(u: UnitV) -> bool {
    &&& u.imports.no_duplicates()
    &&& forall|h: Seq<char>| u.imports.contains(h) ==> helper_used(u, h)
    &&& forall|t: Seq<char>| #[trigger] counter_of(u.counters, t) == count_tag(u.vars, t)
    &&& forall|p: int|
        0 <= p < u.vars.len() ==> (#[trigger] u.vars[p]).1 == count_tag(u.vars.take(p), u.vars[p].0)
            + 1
}

pub proof fn lemma_find_tag(cs: Seq<(Seq<char>, nat)>, t: Seq<char>)
    ensures
        -1 <= find_tag(cs, t) < cs.len(),
        find_tag(cs, t) >= 0 ==> cs[find_tag(cs, t)].0 == t,
        forall|k: int| find_tag(cs, t) < k < cs.len() ==> cs[k].0 != t,
    decreases cs.len(),
{
    if cs.len() > 0 && cs.last().0 != t {
        lemma_find_tag(cs.drop_last(), t);
        assert forall|k: int| find_tag(cs, t) < k < cs.len() implies cs[k].0 != t by {
            if k < cs.len() - 1 {
                assert(cs[k] == cs.drop_last()[k]);
            }
        }
    }
}

/// Sequences with the same tags at the same places find the same index.
pub proof fn lemma_find_tag_keys(a: Seq<(Seq<char>, nat)>, b: Seq<(Seq<char>, nat)>, t: Seq<char>)
    requires
        a.len() == b.len(),
        forall|k: int| 0 <= k < a.len() ==> a[k].0 == b[k].0,
    ensures
        find_tag(a, t) == find_tag(b, t),
    decreases a.len(),
{
    if a.len() > 0 {
        lemma_find_tag_keys(a.drop_last(), b.drop_last(), t);
    }
}

pub proof fn lemma_set_counter(cs: Seq<(Seq<char>, nat)>, t: Seq<char>, c: nat, u: Seq<char>)
    ensures
        counter_of(set_counter(cs, t, c), u) == if u == t {
            c
        } else {
            counter_of(cs, u)
        },
{
    lemma_find_tag(cs, t);
    lemma_find_tag(cs, u);
    let f = find_tag(cs, t);
    let n = set_counter(cs, t, c);
    if f >= 0 {
        lemma_find_tag_keys(cs, n, u);
        lemma_find_tag_keys(cs, n, t);
    } else {
        assert(n.drop_last() =~= cs);
    }
}

pub proof fn lemma_count_tag_push(vars: Seq<(Seq<char>, nat)>, x: (Seq<char>, nat), t: Seq<char>)
    ensures
        count_tag(vars.push(x), t) == count_tag(vars, t) + if x.0 == t {
            1nat
        } else {
            0nat
        },
{
    assert(vars.push(x).drop_last() =~= vars);
}

pub proof fn lemma_add_all(imports: Seq<Seq<char>>, hs: Seq<Seq<char>>)
    ensures
        imports.no_duplicates() ==> add_all(imports, hs).no_duplicates(),
        forall|h: Seq<char>|
            add_all(imports, hs).contains(h) <==> (imports.contains(h) || hs.contains(h)),
    decreases hs.len(),
{
    if hs.len() > 0 {
        lemma_add_all(imports, hs.drop_last());
        let a = add_all(imports, hs.drop_last());
        assert forall|h: Seq<char>| hs.contains(h) <==> (hs.drop_last().contains(h) || h
            == hs.last()) by {
            if hs.contains(h) {
                let k = choose|k: int| 0 <= k < hs.len() && hs[k] == h;
                if k < hs.len() - 1 {
                    assert(hs.drop_last()[k] == h);
                }
            }
            if hs.drop_last().contains(h) {
                let k = choose|k: int| 0 <= k < hs.len() - 1 && hs.drop_last()[k] == h;
                assert(hs[k] == h);
            }
            if h == hs.last() {
                assert(hs[hs.len() - 1] == h);
            }
        }
        if !a.contains(hs.last()) {
            assert forall|h: Seq<char>| a.push(hs.last()).contains(h) <==> (a.contains(h) || h
                == hs.last()) by {
                if a.push(hs.last()).contains(h) {
                    let k = choose|k: int| 0 <= k < a.len() + 1 && a.push(hs.last())[k] == h;
                    if k < a.len() {
                        assert(a[k] == h);
                    }
                }
                if a.contains(h) {
                    let k = choose|k: int| 0 <= k < a.len() && a[k] == h;
                    assert(a.push(hs.last())[k] == h);
                }
                if h == hs.last() {
                    assert(a.push(hs.last())[a.len() as int] == h);
                }
            }
            if a.no_duplicates() {
                assert(a.push(hs.last()).no_duplicates());
            }
        }
    }
}

pub open spec fn digit_text(d: nat) -> Seq<char> {
    if d == 0 {
        "0"@
    } else if d == 1 {
        "1"@
    } else if d == 2 {
        "2"@
    } else if d == 3 {
        "3"@
    } else if d == 4 {
        "4"@
    } else if d == 5 {
        "5"@
    } else if d == 6 {
        "6"@
    } else if d == 7 {
        "7"@
    } else if d == 8 {
        "8"@
    } else {
        "9"@
    }
}

/// The decimal digits of `n`.
pub open spec fn dec(n: nat) -> Seq<char>
    decreases n,
{
    if n < 10 {
        digit_text(n)
    } else {
        dec(n / 10) + digit_text(n % 10)
    }
}

/// The local name of the variable numbered `v.1` of tag `v.0`.
pub open spec fn var_name(v: (Seq<char>, nat)) -> Seq<char> {
    v.0 + dec(v.1)
}

pub open spec fn quoted(s: Seq<char>) -> Seq<char> {
    "\""@ + s + "\""@
}

/// The statement that sets attribute `a` on `var`: static text quoted,
/// an expression as it stands.
pub open spec fn attr_text(var: Seq<char>, a: AttrV) -> Seq<char> {
    "\nattr("@ + var + ", "@ + quoted(a.name) + ", "@ + (if a.dynamic {
        a.text
    } else {
        quoted(a.text)
    }) + ");"@
}

/// The attribute statements for `var`, in the order of `attrs`.
pub open spec fn attrs_text(var: Seq<char>, attrs: Seq<AttrV>) -> Seq<char>
    decreases attrs.len(),
{
    if attrs.len() == 0 {
        Seq::empty()
    } else {
        attrs_text(var, attrs.drop_last()) + attr_text(var, attrs.last())
    }
}

pub open spec fn create_text(var: Seq<char>, name: Seq<char>, attrs: Seq<AttrV>) -> Seq<char> {
    "\n"@ + var + " = element("@ + quoted(name) + ");"@ + attrs_text(var, attrs)
}

pub open spec fn mount_text(var: Seq<char>) -> Seq<char> {
    "\ninsert(target, "@ + var + ", anchor);"@
}

/// The helpers that the statements of one element call.
pub open spec fn elem_helpers(with_attr: bool) -> Seq<Seq<char>> {
    if with_attr {
        seq!["attr"@, "detach"@, "element"@, "insert"@]
    } else {
        seq!["detach"@, "element"@, "insert"@]
    }
}

/// `u` after giving tag `name` its next variable.
pub open spec fn new_var_spec(u: UnitV, name: Seq<char>) -> UnitV {
    let c = counter_of(u.counters, name) + 1;
    UnitV { counters: set_counter(u.counters, name, c), vars: u.vars.push((name, c)), ..u }
}

/// `u` after the statements of a plain element `name` with `attrs`.
pub open spec fn create_spec(u: UnitV, name: Seq<char>, attrs: Seq<AttrV>) -> UnitV {
    let v = new_var_spec(u, name);
    let var = var_name(v.vars.last());
    UnitV {
        create: u.create + create_text(var, name, attrs),
        mount: u.mount + mount_text(var),
        attr_stmts: u.attr_stmts + attrs.len(),
        imports: add_all(u.imports, elem_helpers(attrs.len() > 0)),
        ..v
    }
}

pub proof fn lemma_count_tag_len(vars: Seq<(Seq<char>, nat)>, t: Seq<char>)
    ensures
        count_tag(vars, t) <= vars.len(),
    decreases vars.len(),
{
    if vars.len() > 0 {
        lemma_count_tag_len(vars.drop_last(), t);
    }
}

/// A new variable keeps the invariant.
pub proof fn lemma_new_var_wf(u: UnitV, name: Seq<char>)
    requires
        wf(u),
    ensures
        wf(new_var_spec(u, name)),
{
    let c = counter_of(u.counters, name) + 1;
    let v = new_var_spec(u, name);
    assert forall|t: Seq<char>| #[trigger] counter_of(v.counters, t) == count_tag(v.vars, t) by {
        lemma_set_counter(u.counters, name, c, t);
        lemma_count_tag_push(u.vars, (name, c), t);
        assert(counter_of(u.counters, t) == count_tag(u.vars, t));
    }
    assert forall|p: int| 0 <= p < v.vars.len() implies (#[trigger] v.vars[p]).1 == count_tag(
        v.vars.take(p),
        v.vars[p].0,
    ) + 1 by {
        if p < u.vars.len() {
            assert(v.vars.take(p) =~= u.vars.take(p));
            assert(v.vars[p] == u.vars[p]);
        } else {
            assert(v.vars.take(p) =~= u.vars);
            assert(counter_of(u.counters, name) == count_tag(u.vars, name));
        }
    }
    assert forall|h: Seq<char>| v.imports.contains(h) implies helper_used(v, h) by {
        assert(helper_used(u, h));
    }
}

/// The statements of an element keep the invariant.
pub proof fn lemma_create_wf(u: UnitV, name: Seq<char>, attrs: Seq<AttrV>)
    requires
        wf(u),
    ensures
        wf(create_spec(u, name, attrs)),
{
    lemma_new_var_wf(u, name);
    let v = new_var_spec(u, name);
    let w = create_spec(u, name, attrs);
    let hs = elem_helpers(attrs.len() > 0);
    lemma_add_all(u.imports, hs);
    assert forall|h: Seq<char>| w.imports.contains(h) implies helper_used(w, h) by {
        if u.imports.contains(h) {
            assert(helper_used(u, h));
        } else {
            assert(hs.contains(h));
            let k = choose|k: int| 0 <= k < hs.len() && hs[k] == h;
            assert(w.vars.len() > 0);
        }
    }
    assert forall|t: Seq<char>| #[trigger] counter_of(w.counters, t) == count_tag(w.vars, t) by {
        assert(counter_of(v.counters, t) == count_tag(v.vars, t));
    }
    assert forall|p: int| 0 <= p < w.vars.len() implies (#[trigger] w.vars[p]).1 == count_tag(
        w.vars.take(p),
        w.vars[p].0,
    ) + 1 by {
        assert(v.vars[p] == w.vars[p]);
    }
}

/// The text of digit `d`.
fn digit_str(d: usize) -> (r: &'static str)
    requires
        d < 10,
    ensures
        r@ == digit_text(d as nat),
{
    if d == 0 {
        "0"
    } else if d == 1 {
        "1"
    } else if d == 2 {
        "2"
    } else if d == 3 {
        "3"
    } else if d == 4 {
        "4"
    } else if d == 5 {
        "5"
    } else if d == 6 {
        "6"
    } else if d == 7 {
        "7"
    } else if d == 8 {
        "8"
    } else {
        "9"
    }
}

/// Appends the decimal digits of `n` to `out`.
pub fn push_decimal(out: &mut String, n: usize)
    ensures
        final(out)@ == old(out)@ + dec(n as nat),
    decreases n,
{
    if n >= 10 {
        push_decimal(out, n / 10);
    }
    out.append(digit_str(n % 10));
    assert(final(out)@ =~= old(out)@ + dec(n as nat));
}

impl Parser {
    fn has_import(&self, h: &String) -> (r: bool)
        ensures
            r == self@.imports.contains(h@),
    {
        let mut k: usize = 0;
        while k < self.internal_imports.len()
            invariant
                k <= self.internal_imports@.len(),
                forall|j: int| 0 <= j < k ==> self.internal_imports@[j]@ != h@,
            decreases self.internal_imports@.len() - k,
        {
            if self.internal_imports[k] == *h {
                assert(self@.imports[k as int] == h@);
                return true;
            }
            k = k + 1;
        }
        proof {
            if self@.imports.contains(h@) {
                let j = choose|j: int| 0 <= j < self@.imports.len() && self@.imports[j] == h@;
                assert(self.internal_imports@[j]@ == h@);
            }
        }
        false
    }

    /// Adds each helper name of `imports` that is not there yet, in order.
    /// Only helpers that the unit's statements call may be added, so the
    /// import list stays minimal.
    pub fn add_imports(&mut self, imports: Vec<&str>)
        requires
            wf(old(self)@),
            forall|k: int| 0 <= k < imports@.len() ==> helper_used(old(self)@, #[trigger] imports@[k]@),
        ensures
            final(self)@ == (UnitV { imports: add_all(old(self)@.imports, imports@.map_values(|s: &str| s@)), ..old(self)@ }),
            wf(final(self)@),
    {
        let ghost hs = imports@.map_values(|s: &str| s@);
        let mut i: usize = 0;
        while i < imports.len()
            invariant
                i <= imports@.len(),
                hs == imports@.map_values(|s: &str| s@),
                self@ == (UnitV { imports: add_all(old(self)@.imports, hs.take(i as int)), ..old(self)@ }),
            decreases imports@.len() - i,
        {
            let h = String::from_str(imports[i]);
            assert(hs.take(i + 1).drop_last() =~= hs.take(i as int));
            if !self.has_import(&h) {
                let ghost before = self.internal_imports@;
                self.internal_imports.push(h);
                assert(names_view(self.internal_imports@) =~= names_view(before).push(hs[i as int]));
            }
            i = i + 1;
        }
        assert(hs.take(imports@.len() as int) =~= hs);
        proof {
            let u = old(self)@;
            lemma_add_all(u.imports, hs);
            assert forall|h: Seq<char>| self@.imports.contains(h) implies helper_used(self@, h) by {
                if !u.imports.contains(h) {
                    let k = choose|k: int| 0 <= k < hs.len() && hs[k] == h;
                    assert(hs[k] == imports@[k]@);
                    assert(helper_used(u, imports@[k]@));
                } else {
                    assert(helper_used(u, h));
                }
            }
        }
    }
}

/// Appends the statements that set `attrs` on `var`, in order.
fn emit_attrs(out: &mut String, var: &String, attrs: &Vec<Attribute>)
    ensures
        final(out)@ == old(out)@ + attrs_text(var@, attrs_view(attrs@)),
{
    let ghost av = attrs_view(attrs@);
    let ghost c1 = out@;
    let mut k: usize = 0;
    assert(c1 =~= c1 + attrs_text(var@, av.take(0)));
    while k < attrs.len()
        invariant
            k <= attrs@.len(),
            av == attrs_view(attrs@),
            out@ == c1 + attrs_text(var@, av.take(k as int)),
        decreases attrs@.len() - k,
    {
        let a = &attrs[k];
        let ghost before = out@;
        out.append("\nattr(");
        out.append(var.as_str());
        out.append(", ");
        out.append("\"");
        out.append(a.name.as_str());
        out.append("\"");
        out.append(", ");
        match &a.value {
            AttrValue::DynamicExpr(t) => {
                out.append(t.as_str());
            },
            AttrValue::StaticText(t) => {
                out.append("\"");
                out.append(t.as_str());
                out.append("\"");
            },
        }
        out.append(");");
        assert(av.take(k + 1).drop_last() =~= av.take(k as int));
        assert(av[k as int] == a@);
        assert(out@ =~= before + attr_text(var@, a@));
        assert(out@ =~= c1 + attrs_text(var@, av.take(k + 1)));
        k = k + 1;
    }
    assert(av.take(attrs@.len() as int) =~= av);
}

/// Appends the creation statement of `var`, an element `name`, and the
/// statements that set its attributes.
fn emit_create(out: &mut String, var: &String, name: &str, attrs: &Vec<Attribute>)
    ensures
        final(out)@ == old(out)@ + create_text(var@, name@, attrs_view(attrs@)),
{
    let ghost c0 = out@;
    out.append("\n");
    out.append(var.as_str());
    out.append(" = element(");
    out.append("\"");
    out.append(name);
    out.append("\"");
    out.append(");");
    let ghost c1 = out@;
    assert(c1 =~= c0 + ("\n"@ + var@ + " = element("@ + quoted(name@) + ");"@));
    emit_attrs(out, var, attrs);
    assert(out@ =~= c0 + create_text(var@, name@, attrs_view(attrs@)));
}

/// Appends the statement that mounts `var`.
fn emit_mount(out: &mut String, var: &String)
    ensures
        final(out)@ == old(out)@ + mount_text(var@),
{
    let ghost c0 = out@;
    out.append("\ninsert(target, ");
    out.append(var.as_str());
    out.append(", anchor);");
    assert(out@ =~= c0 + mount_text(var@));
}

impl Parser {
    /// Gives tag `var` its next instance number and returns the variable
    /// name: the tag followed by that number.
    pub fn create_elem_var(&mut self, var: &str) -> (r: String)
        requires
            wf(old(self)@),
        ensures
            final(self)@ == new_var_spec(old(self)@, var@),
            r@ == var_name(final(self)@.vars.last()),
            r@ == var@ + dec(counter_of(old(self)@.counters, var@) + 1),
            counter_of(final(self)@.counters, var@) == counter_of(old(self)@.counters, var@) + 1,
            forall|t: Seq<char>|
                t != var@ ==> #[trigger] counter_of(final(self)@.counters, t) == counter_of(
                    old(self)@.counters,
                    t,
                ),
            wf(final(self)@),
    {
        let t = String::from_str(var);
        let ghost cs = self@.counters;
        let mut k: usize = self.elem_vars.len();
        assert(cs.take(k as int) =~= cs);
        while k > 0 && !(self.elem_vars[k - 1].0 == t)
            invariant
                k <= self.elem_vars@.len(),
                cs == pairs_view(self.elem_vars@),
                t@ == var@,
                find_tag(cs, var@) == find_tag(cs.take(k as int), var@),
            decreases k,
        {
            assert(cs.take(k as int).drop_last() =~= cs.take(k - 1));
            k = k - 1;
        }
        proof {
            lemma_find_tag(cs, var@);
            lemma_count_tag_len(self@.vars, var@);
            if k > 0 {
                assert(cs.take(k as int).drop_last() =~= cs.take(k - 1));
                assert(cs.take(k as int).last() == cs[k - 1]);
            }
        }
        let c0: usize = if k > 0 {
            self.elem_vars[k - 1].1
        } else {
            0
        };
        assert(c0 == counter_of(cs, var@));
        let ghost vars0 = self@.vars;
        self.vars.push((t.clone(), 0));
        let last = self.vars.len() - 1;
        let c = c0 + 1;
        self.vars[last] = (t.clone(), c);
        assert(pairs_view(self.vars@) =~= vars0.push((var@, c as nat)));
        if k > 0 {
            self.elem_vars[k - 1] = (t.clone(), c);
            assert(pairs_view(self.elem_vars@) =~= cs.update(k - 1, (var@, c as nat)));
        } else {
            self.elem_vars.push((t.clone(), c));
            assert(pairs_view(self.elem_vars@) =~= cs.push((var@, c as nat)));
        }
        proof {
            lemma_new_var_wf(old(self)@, var@);
            let c1 = counter_of(old(self)@.counters, var@) + 1;
            lemma_set_counter(old(self)@.counters, var@, c1, var@);
            assert forall|t: Seq<char>| t != var@ implies #[trigger] counter_of(self@.counters, t)
                == counter_of(old(self)@.counters, t) by {
                lemma_set_counter(old(self)@.counters, var@, c1, t);
            }
        }
        let mut name = t;
        push_decimal(&mut name, c);
        name
    }

    /// Emits the statements of a plain element: its creation, one statement
    /// per attribute in order, and its mount; adds the helpers they call.
    pub fn create_elem(&mut self, name: &str, attrs: &Vec<Attribute>)
        requires
            wf(old(self)@),
        ensures
            final(self)@ == create_spec(old(self)@, name@, attrs_view(attrs@)),
            wf(final(self)@),
    {
        let ghost u = self@;
        let ghost av = attrs_view(attrs@);
        let var = self.create_elem_var(name);
        emit_create(&mut self.create_fn, &var, name, attrs);
        emit_mount(&mut self.mount_fn, &var);
        proof {
            self.attr_stmts = Ghost(self.attr_stmts@ + attrs@.len());
            let v = new_var_spec(u, name@);
            lemma_new_var_wf(u, name@);
            assert forall|h: Seq<char>| self@.imports.contains(h) implies helper_used(self@, h) by {
                assert(helper_used(v, h));
            }
            assert forall|t: Seq<char>| #[trigger] counter_of(self@.counters, t) == count_tag(self@.vars, t) by {
                assert(counter_of(v.counters, t) == count_tag(v.vars, t));
            }
            assert forall|p: int| 0 <= p < self@.vars.len() implies (#[trigger] self@.vars[p]).1 == count_tag(
                self@.vars.take(p),
                self@.vars[p].0,
            ) + 1 by {
                assert(v.vars[p] == self@.vars[p]);
            }
            assert(wf(self@));
        }
        if attrs.len() > 0 {
            let hs = vec!["attr", "detach", "element", "insert"];
            assert(hs@.map_values(|s: &str| s@) =~= elem_helpers(true));
            self.add_imports(hs);
        } else {
            let hs = vec!["detach", "element", "insert"];
            assert(hs@.map_values(|s: &str| s@) =~= elem_helpers(false));
            self.add_imports(hs);
        }
        proof {
            lemma_create_wf(u, name@, av);
        }
    }
}

/// The index after the last character before `j` that is not whitespace.
pub open spec fn back_end(s: Seq<char>, j: int) -> int
    decreases j,
{
    if 0 < j <= s.len() && is_space(s[j - 1]) {
        back_end(s, j - 1)
    } else {
        j
    }
}

/// `s` without leading and trailing whitespace.
pub open spec fn trim_spec(s: Seq<char>) -> Seq<char> {
    if space_end(s, 0) < back_end(s, s.len() as int) {
        s.subrange(space_end(s, 0), back_end(s, s.len() as int))
    } else {
        Seq::empty()
    }
}

pub proof fn lemma_back_end(s: Seq<char>, j: int)
    requires
        0 <= j <= s.len(),
    ensures
        0 <= back_end(s, j) <= j,
    decreases j,
{
    if 0 < j && is_space(s[j - 1]) {
        lemma_back_end(s, j - 1);
    }
}

/// The children of an element; nothing for other nodes.
pub open spec fn kids(n: Node) -> Seq<Node> {
    match n {
        Node::Element { children, .. } => children@,
        _ => Seq::empty(),
    }
}

/// What visiting `n` itself does, before its children: text inside a script
/// or style block is collected; `script` and `style` elements open such a
/// block; any other plain element gets its statements.
pub open spec fn enter_spec(u: UnitV, n: Node) -> UnitV {
    match n {
        Node::Text(t) => if u.in_script {
            UnitV { script: u.script + trim_spec(t@), ..u }
        } else if u.in_style {
            UnitV { style: u.style + trim_spec(t@), ..u }
        } else {
            u
        },
        Node::Element { name: Some(nm), kind: ElemTy::HTML, attributes, .. } => if nm@ == "script"@ {
            UnitV { in_script: true, ..u }
        } else if nm@ == "style"@ {
            UnitV { in_style: true, ..u }
        } else {
            create_spec(u, nm@, attrs_view(attributes@))
        },
        _ => u,
    }
}

/// The depth-first walk of `n`: visit it, walk its children in order, then
/// restore the script and style flags to their values before `n`.
pub open spec fn walk_spec(u: UnitV, n: Node) -> UnitV
    decreases n, 1int, 0int,
{
    let v = walk_kids_spec(enter_spec(u, n), n, 0);
    UnitV { in_script: u.in_script, in_style: u.in_style, ..v }
}

/// Walks the children of `n` from the `k`-th on.
pub open spec fn walk_kids_spec(u: UnitV, n: Node, k: int) -> UnitV
    decreases n, 0int, kids(n).len() - k,
{
    if 0 <= k < kids(n).len() {
        walk_kids_spec(walk_spec(u, kids(n)[k]), n, k + 1)
    } else {
        u
    }
}

pub proof fn lemma_enter_wf(u: UnitV, n: Node)
    requires
        wf(u),
    ensures
        wf(enter_spec(u, n)),
{
    match n {
        Node::Element { name: Some(nm), kind: ElemTy::HTML, attributes, .. } => {
            if nm@ != "script"@ && nm@ != "style"@ {
                lemma_create_wf(u, nm@, attrs_view(attributes@));
            } else {
                let v = enter_spec(u, n);
                assert forall|h: Seq<char>| v.imports.contains(h) implies helper_used(v, h) by {
                    assert(helper_used(u, h));
                }
            }
        },
        Node::Text(_) => {
            let v = enter_spec(u, n);
            assert forall|h: Seq<char>| v.imports.contains(h) implies helper_used(v, h) by {
                assert(helper_used(u, h));
            }
        },
        _ => {},
    }
}

/// The walk keeps the invariant.
pub proof fn lemma_walk_wf(u: UnitV, n: Node)
    requires
        wf(u),
    ensures
        wf(walk_spec(u, n)),
    decreases n, 1int, 0int,
{
    lemma_enter_wf(u, n);
    lemma_walk_kids_wf(enter_spec(u, n), n, 0);
    let v = walk_kids_spec(enter_spec(u, n), n, 0);
    let w = walk_spec(u, n);
    assert forall|h: Seq<char>| w.imports.contains(h) implies helper_used(w, h) by {
        assert(helper_used(v, h));
    }
}

pub proof fn lemma_walk_kids_wf(u: UnitV, n: Node, k: int)
    requires
        wf(u),
    ensures
        wf(walk_kids_spec(u, n, k)),
    decreases n, 0int, kids(n).len() - k,
{
    if 0 <= k < kids(n).len() {
        lemma_walk_wf(u, kids(n)[k]);
        lemma_walk_kids_wf(walk_spec(u, kids(n)[k]), n, k + 1);
    }
}

/// Returns `trim_spec(t)` as text.
fn trim_text(t: &String) -> (r: String)
    ensures
        r@ == trim_spec(t@),
{
    let cs = crate::chars::chars_of(t.as_str());
    let ghost s = cs@;
    let i = skip_space(&cs, 0);
    let mut j: usize = cs.len();
    proof {
        lemma_back_end(s, s.len() as int);
    }
    while j > 0 && is_space_exec(cs[j - 1])
        invariant
            j <= s.len(),
            s == cs@,
            back_end(s, j as int) == back_end(s, s.len() as int),
        decreases j,
    {
        j = j - 1;
    }
    if i < j {
        String::from_str(t.as_str().substring_char(i, j))
    } else {
        String::new()
    }
}

impl Parser {
    /// Walks `node` depth first: collects script and style text, and emits
    /// the statements of each plain element.
    pub fn walk(&mut self, node: &Node)
        requires
            wf(old(self)@),
        ensures
            final(self)@ == walk_spec(old(self)@, *node),
            wf(final(self)@),
        decreases node,
    {
        let in_script = self.in_script;
        let in_style = self.in_style;
        let ghost u = self@;
        match node {
            Node::Text(t) => {
                if self.in_script {
                    let tt = trim_text(t);
                    self.script.append(tt.as_str());
                } else if self.in_style {
                    let tt = trim_text(t);
                    self.style.append(tt.as_str());
                }
            },
            Node::Element { name: Some(nm), kind: ElemTy::HTML, attributes, .. } => {
                let script = String::from_str("script");
                let style = String::from_str("style");
                if *nm == script {
                    self.in_script = true;
                } else if *nm == style {
                    self.in_style = true;
                } else {
                    self.create_elem(nm.as_str(), attributes);
                }
            },
            _ => {},
        }
        proof {
            lemma_enter_wf(u, *node);
        }
        assert(self@ == enter_spec(u, *node));
        if let Node::Element { children, .. } = node {
            let mut k: usize = 0;
            while k < children.len()
                invariant
                    k <= children@.len(),
                    children@ == kids(*node),
                    walk_kids_spec(enter_spec(u, *node), *node, 0) == walk_kids_spec(self@, *node, k as int),
                    wf(self@),
                decreases children@.len() - k,
            {
                assert(decreases_to!(*node => children@[k as int]));
                self.walk(&children[k]);
                k = k + 1;
            }
        }
        self.in_script = in_script;
        self.in_style = in_style;
        proof {
            lemma_walk_wf(u, *node);
        }
    }
}

/// A unit with nothing emitted yet but the helpers every module calls.
pub open spec fn initial_unit() -> UnitV {
    UnitV {
        in_script: false,
        in_style: false,
        script: Seq::empty(),
        style: Seq::empty(),
        create: Seq::empty(),
        mount: Seq::empty(),
        imports: seq!["SvelteComponent"@, "init"@, "safe_not_equal"@, "noop"@],
        counters: Seq::empty(),
        vars: Seq::empty(),
        attr_stmts: 0,
    }
}

/// The unit after compiling the tree `n`.
pub open spec fn compile_spec(n: Node) -> UnitV {
    walk_spec(initial_unit(), n)
}

/// One line of the import list.
pub open spec fn import_line(h: Seq<char>) -> Seq<char> {
    "\n    "@ + h + ","@
}

pub open spec fn imports_text(hs: Seq<Seq<char>>) -> Seq<char>
    decreases hs.len(),
{
    if hs.len() == 0 {
        Seq::empty()
    } else {
        imports_text(hs.drop_last()) + import_line(hs.last())
    }
}

pub open spec fn decl_line(v: (Seq<char>, nat)) -> Seq<char> {
    "\n    let "@ + var_name(v) + ";"@
}

pub open spec fn decls_text(vars: Seq<(Seq<char>, nat)>) -> Seq<char>
    decreases vars.len(),
{
    if vars.len() == 0 {
        Seq::empty()
    } else {
        decls_text(vars.drop_last()) + decl_line(vars.last())
    }
}

pub open spec fn detach_line(v: (Seq<char>, nat)) -> Seq<char> {
    "\n                detach("@ + var_name(v) + ");"@
}

pub open spec fn detach_text(vars: Seq<(Seq<char>, nat)>) -> Seq<char>
    decreases vars.len(),
{
    if vars.len() == 0 {
        Seq::empty()
    } else {
        detach_text(vars.drop_last()) + detach_line(vars.last())
    }
}

/// The module text of a unit: the import list, the script text, a factory
/// whose steps declare, create, mount and (when detaching) detach every
/// variable, and a component class that hands the factory to `init`.
pub open spec fn render_spec(u: UnitV) -> Seq<char> {
    "import {"@ + imports_text(u.imports) + "\n} from \"svelte/internal\";\n\n"@ + u.script
        + "\n\nfunction create_fragment(ctx) {"@ + decls_text(u.vars)
        + "\n\n    return {\n        c() {"@ + u.create
        + "\n        },\n        m(target, anchor) {"@ + u.mount
        + "\n        },\n        p: noop,\n        i: noop,\n        o: noop,\n        d(detaching) {\n            if (detaching) {"@
        + detach_text(u.vars)
        + "\n            }\n        }\n    };\n}\n\nclass App extends SvelteComponent {\n    constructor(options) {\n        super();\n        init(this, options, null, create_fragment, safe_not_equal, {});\n    }\n}\n\nexport default App;\n"@
}

pub proof fn lemma_initial_wf()
    ensures
        wf(initial_unit()),
{
    let u = initial_unit();
    assert forall|h: Seq<char>| u.imports.contains(h) implies helper_used(u, h) by {
        let k = choose|k: int| 0 <= k < u.imports.len() && u.imports[k] == h;
    }
    assert forall|t: Seq<char>| #[trigger] counter_of(u.counters, t) == count_tag(u.vars, t) by {}
    reveal_strlit("SvelteComponent");
    reveal_strlit("init");
    reveal_strlit("safe_not_equal");
    reveal_strlit("noop");
    assert("init"@[0] != "noop"@[0]);
    assert("SvelteComponent"@.len() != "init"@.len());
    assert("SvelteComponent"@.len() != "noop"@.len());
    assert("SvelteComponent"@.len() != "safe_not_equal"@.len());
    assert("safe_not_equal"@.len() != "init"@.len());
    assert("safe_not_equal"@.len() != "noop"@.len());
    assert(u.imports.no_duplicates());
}

/// The name of the variable `v`.
fn var_text(v: &(String, usize)) -> (r: String)
    ensures
        r@ == var_name((v.0@, v.1 as nat)),
{
    let mut r = v.0.clone();
    push_decimal(&mut r, v.1);
    r
}

impl Parser {
    /// Compiles the tree `doc`: starts from the helpers every module calls
    /// and walks the tree.
    pub fn new(doc: &Node) -> (r: Parser)
        ensures
            r@ == compile_spec(*doc),
            wf(r@),
    {
        let mut this = Parser {
            in_script: false,
            in_style: false,
            script: String::new(),
            style: String::new(),
            create_fn: String::new(),
            mount_fn: String::new(),
            internal_imports: vec![
                String::from_str("SvelteComponent"),
                String::from_str("init"),
                String::from_str("safe_not_equal"),
                String::from_str("noop"),
            ],
            elem_vars: Vec::new(),
            vars: Vec::new(),
            attr_stmts: Ghost(0),
        };
        assert(this@.imports =~= initial_unit().imports);
        assert(this@.vars =~= Seq::empty());
        assert(this@.counters =~= Seq::empty());
        proof {
            lemma_initial_wf();
        }
        assert(this@ == initial_unit());
        this.walk(doc);
        this
    }

    /// The module text.
    pub fn render(&self) -> (r: String)
        ensures
            r@ == render_spec(self@),
    {
        let mut out = String::from_str("import {");
        let mut k: usize = 0;
        while k < self.internal_imports.len()
            invariant
                k <= self.internal_imports@.len(),
                out@ == "import {"@ + imports_text(self@.imports.take(k as int)),
            decreases self.internal_imports@.len() - k,
        {
            let ghost before = out@;
            out.append("\n    ");
            out.append(self.internal_imports[k].as_str());
            out.append(",");
            assert(self@.imports.take(k + 1).drop_last() =~= self@.imports.take(k as int));
            assert(out@ =~= "import {"@ + imports_text(self@.imports.take(k + 1)));
            k = k + 1;
        }
        assert(self@.imports.take(k as int) =~= self@.imports);
        out.append("\n} from \"svelte/internal\";\n\n");
        out.append(self.script.as_str());
        out.append("\n\nfunction create_fragment(ctx) {");
        let ghost head = out@;
        let mut k: usize = 0;
        while k < self.vars.len()
            invariant
                k <= self.vars@.len(),
                out@ == head + decls_text(self@.vars.take(k as int)),
            decreases self.vars@.len() - k,
        {
            let ghost before = out@;
            let name = var_text(&self.vars[k]);
            out.append("\n    let ");
            out.append(name.as_str());
            out.append(";");
            assert(self@.vars.take(k + 1).drop_last() =~= self@.vars.take(k as int));
            assert(out@ =~= head + decls_text(self@.vars.take(k + 1)));
            k = k + 1;
        }
        assert(self@.vars.take(k as int) =~= self@.vars);
        out.append("\n\n    return {\n        c() {");
        out.append(self.create_fn.as_str());
        out.append("\n        },\n        m(target, anchor) {");
        out.append(self.mount_fn.as_str());
        out.append(
            "\n        },\n        p: noop,\n        i: noop,\n        o: noop,\n        d(detaching) {\n            if (detaching) {",
        );
        let ghost mid = out@;
        let mut k: usize = 0;
        while k < self.vars.len()
            invariant
                k <= self.vars@.len(),
                out@ == mid + detach_text(self@.vars.take(k as int)),
            decreases self.vars@.len() - k,
        {
            let name = var_text(&self.vars[k]);
            out.append("\n                detach(");
            out.append(name.as_str());
            out.append(");");
            assert(self@.vars.take(k + 1).drop_last() =~= self@.vars.take(k as int));
            assert(out@ =~= mid + detach_text(self@.vars.take(k + 1)));
            k = k + 1;
        }
        assert(self@.vars.take(k as int) =~= self@.vars);
        out.append(
            "\n            }\n        }\n    };\n}\n\nclass App extends SvelteComponent {\n    constructor(options) {\n        super();\n        init(this, options, null, create_fragment, safe_not_equal, {});\n    }\n}\n\nexport default App;\n",
        );
        assert(out@ =~= render_spec(self@));
        out
    }

    /// The collected script text.
    pub fn script(&self) -> (r: String)
        ensures
            r@ == self@.script,
    {
        self.script.clone()
    }

    /// The collected style text, for a stylesheet of its own.
    pub fn style(&self) -> (r: String)
        ensures
            r@ == self@.style,
    {
        self.style.clone()
    }
}

pub proof fn lemma_count_tag_take(vars: Seq<(Seq<char>, nat)>, t: Seq<char>, i: int, j: int)
    requires
        0 <= i <= j <= vars.len(),
    ensures
        count_tag(vars.take(i), t) <= count_tag(vars.take(j), t),
        i < j && vars[i].0 == t ==> count_tag(vars.take(i), t) < count_tag(vars.take(j), t),
    decreases j - i,
{
    if i < j {
        lemma_count_tag_take(vars, t, i, j - 1);
        assert(vars.take(j).drop_last() =~= vars.take(j - 1));
        if vars[i].0 == t {
            lemma_count_tag_take(vars, t, i + 1, j);
            assert(vars.take(i + 1).drop_last() =~= vars.take(i));
        }
    }
}

/// Instance numbers: in the unit compiled from any tree, the variables of
/// one tag are numbered 1, 2, ... in the order the walk meets them, so no
/// two share a number; the counter of each tag is how many it has.
pub proof fn law_instance_numbers(n: Node)
    ensures
        forall|p: int|
            0 <= p < compile_spec(n).vars.len() ==> (#[trigger] compile_spec(n).vars[p]).1 == count_tag(
                compile_spec(n).vars.take(p),
                compile_spec(n).vars[p].0,
            ) + 1,
        forall|p: int, q: int|
            0 <= p < q < compile_spec(n).vars.len() && compile_spec(n).vars[p].0 == compile_spec(
                n,
            ).vars[q].0 ==> #[trigger] compile_spec(n).vars[p].1 < #[trigger] compile_spec(n).vars[q].1,
        forall|t: Seq<char>|
            #[trigger] counter_of(compile_spec(n).counters, t) == count_tag(compile_spec(n).vars, t),
{
    lemma_initial_wf();
    lemma_walk_wf(initial_unit(), n);
    let u = compile_spec(n);
    assert forall|p: int, q: int|
        0 <= p < q < u.vars.len() && u.vars[p].0 == u.vars[q].0 implies #[trigger] u.vars[p].1
        < #[trigger] u.vars[q].1 by {
        assert(u.vars[p].1 == count_tag(u.vars.take(p), u.vars[p].0) + 1);
        assert(u.vars[q].1 == count_tag(u.vars.take(q), u.vars[q].0) + 1);
        lemma_count_tag_take(u.vars, u.vars[p].0, p, q);
    }
}

/// Import minimality: the helpers of a compiled module are distinct, and
/// each is called by the module text.
pub proof fn law_imports_minimal(n: Node)
    ensures
        compile_spec(n).imports.no_duplicates(),
        forall|h: Seq<char>|
            compile_spec(n).imports.contains(h) ==> helper_used(compile_spec(n), h),
{
    lemma_initial_wf();
    lemma_walk_wf(initial_unit(), n);
}

/// Attribute order: the statements of the first `k` attributes come before
/// those of the rest, for every `k`.
pub proof fn law_attribute_order(var: Seq<char>, attrs: Seq<AttrV>, k: int)
    requires
        0 <= k <= attrs.len(),
    ensures
        attrs_text(var, attrs) == attrs_text(var, attrs.take(k)) + attrs_text(var, attrs.skip(k)),
    decreases attrs.len(),
{
    if k == attrs.len() {
        assert(attrs.take(k) =~= attrs);
        assert(attrs.skip(k) =~= Seq::<AttrV>::empty());
        assert(attrs_text(var, attrs) =~= attrs_text(var, attrs) + Seq::<char>::empty());
    } else {
        law_attribute_order(var, attrs.drop_last(), k);
        assert(attrs.drop_last().take(k) =~= attrs.take(k));
        assert(attrs.skip(k).drop_last() =~= attrs.drop_last().skip(k));
        assert(attrs.skip(k).last() == attrs.last());
        assert(attrs_text(var, attrs) =~= attrs_text(var, attrs.take(k)) + attrs_text(
            var,
            attrs.skip(k),
        ));
    }
}

pub open spec fn is_prefix(a: Seq<(Seq<char>, nat)>, b: Seq<(Seq<char>, nat)>) -> bool {
    a.len() <= b.len() && b.take(a.len() as int) == a
}

proof fn lemma_prefix_trans(a: Seq<(Seq<char>, nat)>, b: Seq<(Seq<char>, nat)>, c: Seq<(Seq<char>, nat)>)
    requires
        is_prefix(a, b),
        is_prefix(b, c),
    ensures
        is_prefix(a, c),
{
    assert(c.take(a.len() as int) =~= b.take(a.len() as int));
}

/// A walk only adds variables after those already declared.
pub proof fn lemma_walk_prefix(u: UnitV, n: Node)
    ensures
        is_prefix(u.vars, walk_spec(u, n).vars),
    decreases n, 1int, 0int,
{
    let e = enter_spec(u, n);
    assert(is_prefix(u.vars, e.vars)) by {
        assert(u.vars.push((Seq::<char>::empty(), 0nat)).take(u.vars.len() as int) =~= u.vars);
        assert(e.vars.take(u.vars.len() as int) =~= u.vars);
    }
    lemma_walk_kids_prefix(e, n, 0);
    lemma_prefix_trans(u.vars, e.vars, walk_spec(u, n).vars);
}

pub proof fn lemma_walk_kids_prefix(u: UnitV, n: Node, k: int)
    ensures
        is_prefix(u.vars, walk_kids_spec(u, n, k).vars),
    decreases n, 0int, kids(n).len() - k,
{
    if 0 <= k < kids(n).len() {
        let v = walk_spec(u, kids(n)[k]);
        lemma_walk_prefix(u, kids(n)[k]);
        lemma_walk_kids_prefix(v, n, k + 1);
        lemma_prefix_trans(u.vars, v.vars, walk_kids_spec(v, n, k + 1).vars);
    } else {
        assert(u.vars.take(u.vars.len() as int) =~= u.vars);
    }
}

pub proof fn lemma_count_tag_concat(a: Seq<(Seq<char>, nat)>, b: Seq<(Seq<char>, nat)>, t: Seq<char>)
    ensures
        count_tag(a + b, t) == count_tag(a, t) + count_tag(b, t),
    decreases b.len(),
{
    if b.len() == 0 {
        assert(a + b =~= a);
    } else {
        lemma_count_tag_concat(a, b.drop_last(), t);
        assert((a + b).drop_last() =~= a + b.drop_last());
    }
}

/// Instance numbers from any state: walking a tree from a sound unit gives
/// the variables of each tag the numbers after its counter, one after
/// another (`t` followed by c+1, c+2, ...), and raises each counter by the
/// number of its new variables.
pub proof fn law_walk_numbers(u: UnitV, n: Node)
    requires
        wf(u),
    ensures
        is_prefix(u.vars, walk_spec(u, n).vars),
        forall|p: int|
            u.vars.len() <= p < walk_spec(u, n).vars.len() ==> (#[trigger] walk_spec(u, n).vars[p]).1
                == counter_of(u.counters, walk_spec(u, n).vars[p].0) + count_tag(
                walk_spec(u, n).vars.subrange(u.vars.len() as int, p),
                walk_spec(u, n).vars[p].0,
            ) + 1,
        forall|t: Seq<char>|
            #[trigger] counter_of(walk_spec(u, n).counters, t) == counter_of(u.counters, t) + count_tag(
                walk_spec(u, n).vars.skip(u.vars.len() as int),
                t,
            ),
{
    lemma_walk_wf(u, n);
    lemma_walk_prefix(u, n);
    let w = walk_spec(u, n);
    let l = u.vars.len() as int;
    assert forall|p: int| l <= p < w.vars.len() implies (#[trigger] w.vars[p]).1 == counter_of(
        u.counters,
        w.vars[p].0,
    ) + count_tag(w.vars.subrange(l, p), w.vars[p].0) + 1 by {
        assert(w.vars.take(p) =~= u.vars + w.vars.subrange(l, p));
        lemma_count_tag_concat(u.vars, w.vars.subrange(l, p), w.vars[p].0);
        assert(counter_of(u.counters, w.vars[p].0) == count_tag(u.vars, w.vars[p].0));
    }
    assert forall|t: Seq<char>| #[trigger] counter_of(w.counters, t) == counter_of(u.counters, t)
        + count_tag(w.vars.skip(l), t) by {
        assert(w.vars =~= u.vars + w.vars.skip(l));
        lemma_count_tag_concat(u.vars, w.vars.skip(l), t);
        assert(counter_of(u.counters, t) == count_tag(u.vars, t));
        assert(counter_of(w.counters, t) == count_tag(w.vars, t));
    }
}

} // verus!

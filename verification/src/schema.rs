//! From the generic XML tree to the report tree: each element kind is read
//! into its record, tolerating absent optional parts and any number of
//! repeated parts, and failing with `MissingField` exactly where an element
//! lacks an attribute or child the schema requires.

use vstd::prelude::*;
use vstd::string::*;
use crate::report::{Address, Cpe, Elem, HostEntry, OSClass, OSMatch, Port, ScanReport, Script,
    ScriptTable, Service, State, Status, Table};
use crate::strutil::str_eq;
use crate::xml::{ParseError, XmlAttr, XmlNode};

verus! {

// ---------------------------------------------------------------------------
// lookups over the tree

/// The value of the first attribute named `k`, if any.
pub open spec fn spec_attr_in(attrs: Seq<XmlAttr>, k: Seq<char>) -> Option<String>
    decreases attrs.len(),
{
    if attrs.len() == 0 {
        None
    } else if attrs.first().key@ == k {
        Some(attrs.first().value)
    } else {
        spec_attr_in(attrs.drop_first(), k)
    }
}

pub open spec fn spec_attr(n: XmlNode, k: Seq<char>) -> Option<String> {
    spec_attr_in(n.attrs@, k)
}

/// The first child element named `nm`, if any.
pub open spec fn first_child_in(cs: Seq<XmlNode>, nm: Seq<char>) -> Option<XmlNode>
    decreases cs.len(),
{
    if cs.len() == 0 {
        None
    } else if cs.first().name@ == nm {
        Some(cs.first())
    } else {
        first_child_in(cs.drop_first(), nm)
    }
}

pub open spec fn first_child(n: XmlNode, nm: Seq<char>) -> Option<XmlNode> {
    first_child_in(n.children@, nm)
}

/// All child elements named `nm`, in document order.
pub open spec fn children_named(cs: Seq<XmlNode>, nm: Seq<char>) -> Seq<XmlNode>
    decreases cs.len(),
{
    if cs.len() == 0 {
        Seq::<XmlNode>::empty()
    } else if cs.first().name@ == nm {
        seq![cs.first()] + children_named(cs.drop_first(), nm)
    } else {
        children_named(cs.drop_first(), nm)
    }
}

pub proof fn lemma_children_named_snoc(s: Seq<XmlNode>, x: XmlNode, nm: Seq<char>)
    ensures
        children_named(s.push(x), nm) == children_named(s, nm) + (if x.name@ == nm {
            seq![x]
        } else {
            Seq::<XmlNode>::empty()
        }),
    decreases s.len(),
{
    let ext = if x.name@ == nm { seq![x] } else { Seq::<XmlNode>::empty() };
    if s.len() == 0 {
        assert(s.push(x).first() == x);
        assert(s.push(x).drop_first() =~= Seq::<XmlNode>::empty());
        assert(children_named(s, nm) =~= Seq::<XmlNode>::empty());
        assert(children_named(s.push(x).drop_first(), nm) =~= Seq::<XmlNode>::empty());
        assert(children_named(s.push(x), nm) =~= children_named(s, nm) + ext);
    } else {
        assert(s.push(x).first() == s.first());
        assert(s.push(x).drop_first() =~= s.drop_first().push(x));
        lemma_children_named_snoc(s.drop_first(), x, nm);
        assert(children_named(s.push(x), nm) =~= children_named(s, nm) + ext);
    }
}

pub proof fn lemma_children_named_concat(a: Seq<XmlNode>, b: Seq<XmlNode>, nm: Seq<char>)
    ensures
        children_named(a + b, nm) == children_named(a, nm) + children_named(b, nm),
    decreases a.len(),
{
    if a.len() == 0 {
        assert(a + b =~= b);
        assert(children_named(a + b, nm) =~= children_named(a, nm) + children_named(b, nm));
    } else {
        assert((a + b).first() == a.first());
        assert((a + b).drop_first() =~= a.drop_first() + b);
        lemma_children_named_concat(a.drop_first(), b, nm);
        assert(children_named(a + b, nm) =~= children_named(a, nm) + children_named(b, nm));
    }
}

/// One loop step: the named children of a prefix grow by the element at `i`
/// exactly when it bears the name.
pub proof fn lemma_children_named_take_step(cs: Seq<XmlNode>, i: int, nm: Seq<char>)
    requires
        0 <= i < cs.len(),
    ensures
        children_named(cs.take(i + 1), nm) == children_named(cs.take(i), nm) + (if cs[i].name@
            == nm {
            seq![cs[i]]
        } else {
            Seq::<XmlNode>::empty()
        }),
        children_named(cs.take(i), nm) + Seq::<XmlNode>::empty() =~= children_named(
            cs.take(i),
            nm,
        ),
{
    assert(cs.take(i + 1) =~= cs.take(i).push(cs[i]));
    lemma_children_named_snoc(cs.take(i), cs[i], nm);
}

/// An element bearing the name stands in the full named-children list, at the
/// index the prefix's named children end at.
pub proof fn lemma_children_named_at(cs: Seq<XmlNode>, i: int, nm: Seq<char>)
    requires
        0 <= i < cs.len(),
        cs[i].name@ == nm,
    ensures
        children_named(cs.take(i), nm).len() < children_named(cs, nm).len(),
        children_named(cs, nm)[children_named(cs.take(i), nm).len() as int] == cs[i],
{
    lemma_children_named_take_step(cs, i, nm);
    assert(cs =~= cs.take(i + 1) + cs.skip(i + 1));
    lemma_children_named_concat(cs.take(i + 1), cs.skip(i + 1), nm);
    let pre = children_named(cs.take(i), nm);
    let mid = children_named(cs.take(i + 1), nm);
    assert(mid == pre + seq![cs[i]]);
    assert(children_named(cs, nm) == mid + children_named(cs.skip(i + 1), nm));
    assert(children_named(cs, nm)[pre.len() as int] == cs[i]);
}

// ---------------------------------------------------------------------------
// what each record must hold for its element, and when reading it succeeds

pub open spec fn status_ok(c: XmlNode) -> bool {
    spec_attr(c, "state"@) is Some && spec_attr(c, "reason"@) is Some
}

pub open spec fn status_matches(c: XmlNode, st: Status) -> bool {
    spec_attr(c, "state"@) == Some(st.state) && spec_attr(c, "reason"@) == Some(st.reason)
}

pub open spec fn address_ok(c: XmlNode) -> bool {
    spec_attr(c, "addr"@) is Some && spec_attr(c, "addrtype"@) is Some
}

pub open spec fn address_matches(c: XmlNode, a: Address) -> bool {
    &&& spec_attr(c, "addr"@) == Some(a.addr)
    &&& spec_attr(c, "addrtype"@) == Some(a.addrtype)
    &&& a.vendor == spec_attr(c, "vendor"@)
}

pub open spec fn addresses_ok(cs: Seq<XmlNode>) -> bool {
    forall|i: int| 0 <= i < cs.len() ==> address_ok(#[trigger] cs[i])
}

pub open spec fn addresses_match(cs: Seq<XmlNode>, rs: Seq<Address>) -> bool {
    cs.len() == rs.len() && forall|i: int| 0 <= i < cs.len() ==> address_matches(
        #[trigger] cs[i],
        rs[i],
    )
}

// ---------------------------------------------------------------------------
// executable lookups

fn find_attr(n: &XmlNode, k: &str) -> (r: Option<String>)
    ensures
        r == spec_attr(*n, k@),
{
    let mut i: usize = 0;
    proof {
        assert(n.attrs@.skip(0) =~= n.attrs@);
    }
    while i < n.attrs.len()
        invariant
            0 <= i <= n.attrs@.len(),
            spec_attr_in(n.attrs@, k@) == spec_attr_in(n.attrs@.skip(i as int), k@),
        decreases n.attrs@.len() - i,
    {
        proof {
            assert(n.attrs@.skip(i as int).first() == n.attrs@[i as int]);
            assert(n.attrs@.skip(i as int).drop_first() =~= n.attrs@.skip(i as int + 1));
        }
        if str_eq(n.attrs[i].key.as_str(), k) {
            return Some(n.attrs[i].value.clone());
        }
        i = i + 1;
    }
    proof {
        assert(n.attrs@.skip(n.attrs@.len() as int).len() == 0);
    }
    None
}

fn find_child<'a>(n: &'a XmlNode, nm: &str) -> (r: Option<&'a XmlNode>)
    ensures
        match r {
            Some(c) => first_child(*n, nm@) == Some(*c),
            None => first_child(*n, nm@) is None,
        },
{
    let mut i: usize = 0;
    proof {
        assert(n.children@.skip(0) =~= n.children@);
    }
    while i < n.children.len()
        invariant
            0 <= i <= n.children@.len(),
            first_child_in(n.children@, nm@) == first_child_in(n.children@.skip(i as int), nm@),
        decreases n.children@.len() - i,
    {
        proof {
            assert(n.children@.skip(i as int).first() == n.children@[i as int]);
            assert(n.children@.skip(i as int).drop_first() =~= n.children@.skip(i as int + 1));
        }
        if str_eq(n.children[i].name.as_str(), nm) {
            return Some(&n.children[i]);
        }
        i = i + 1;
    }
    proof {
        assert(n.children@.skip(n.children@.len() as int).len() == 0);
    }
    None
}

// ---------------------------------------------------------------------------
// converters

fn status_from(c: &XmlNode) -> (r: Result<Status, ParseError>)
    ensures
        r is Ok <==> status_ok(*c),
        r matches Ok(st) ==> status_matches(*c, st),
        r matches Err(e) ==> e == ParseError::MissingField,
{
    let state: Option<String> = find_attr(c, "state");
    let reason: Option<String> = find_attr(c, "reason");
    match (state, reason) {
        (Some(state), Some(reason)) => Ok(Status { state, reason }),
        _ => Err(ParseError::MissingField),
    }
}

fn address_from(c: &XmlNode) -> (r: Result<Address, ParseError>)
    ensures
        r is Ok <==> address_ok(*c),
        r matches Ok(a) ==> address_matches(*c, a),
        r matches Err(e) ==> e == ParseError::MissingField,
{
    let addr: Option<String> = find_attr(c, "addr");
    let addrtype: Option<String> = find_attr(c, "addrtype");
    let vendor: Option<String> = find_attr(c, "vendor");
    match (addr, addrtype) {
        (Some(addr), Some(addrtype)) => Ok(Address { addr, addrtype, vendor }),
        _ => Err(ParseError::MissingField),
    }
}

fn host_addresses(h: &XmlNode) -> (r: Result<Vec<Address>, ParseError>)
    ensures
        r is Ok <==> addresses_ok(children_named(h.children@, "address"@)),
        r matches Ok(v) ==> addresses_match(children_named(h.children@, "address"@), v@),
        r matches Err(e) ==> e == ParseError::MissingField,
{
    let mut out: Vec<Address> = Vec::new();
    let mut i: usize = 0;
    while i < h.children.len()
        invariant
            0 <= i <= h.children@.len(),
            addresses_ok(children_named(h.children@.take(i as int), "address"@)),
            addresses_match(children_named(h.children@.take(i as int), "address"@), out@),
        decreases h.children@.len() - i,
    {
        let c: &XmlNode = &h.children[i];
        proof {
            lemma_children_named_take_step(h.children@, i as int, "address"@);
        }
        if str_eq(c.name.as_str(), "address") {
            match address_from(c) {
                Err(e) => {
                    proof {
                        lemma_children_named_at(h.children@, i as int, "address"@);
                        let pre = children_named(h.children@.take(i as int), "address"@);
                        let all = children_named(h.children@, "address"@);
                        assert(!address_ok(all[pre.len() as int]));
                        assert(!addresses_ok(all));
                    }
                    return Err(e);
                },
                Ok(a) => {
                    out.push(a);
                },
            }
        }
        i = i + 1;
    }
    proof {
        assert(h.children@.take(h.children@.len() as int) =~= h.children@);
    }
    Ok(out)
}



// ---------------------------------------------------------------------------
// script output: elem / table / script, preserved structurally

pub open spec fn elem_ok(c: XmlNode) -> bool {
    spec_attr(c, "key"@) is Some
}

pub open spec fn elem_matches(c: XmlNode, e: Elem) -> bool {
    spec_attr(c, "key"@) == Some(e.key) && e.value == c.text
}

pub open spec fn elems_ok(cs: Seq<XmlNode>) -> bool {
    forall|i: int| 0 <= i < cs.len() ==> elem_ok(#[trigger] cs[i])
}

pub open spec fn elems_match(cs: Seq<XmlNode>, rs: Seq<Elem>) -> bool {
    cs.len() == rs.len() && forall|i: int| 0 <= i < cs.len() ==> elem_matches(
        #[trigger] cs[i],
        rs[i],
    )
}

pub open spec fn table_ok(c: XmlNode) -> bool {
    elems_ok(children_named(c.children@, "elem"@))
}

pub open spec fn table_matches(c: XmlNode, t: Table) -> bool {
    elems_match(children_named(c.children@, "elem"@), t.elem@)
}

pub open spec fn tables_ok(cs: Seq<XmlNode>) -> bool {
    forall|i: int| 0 <= i < cs.len() ==> table_ok(#[trigger] cs[i])
}

pub open spec fn tables_match(cs: Seq<XmlNode>, rs: Seq<Table>) -> bool {
    cs.len() == rs.len() && forall|i: int| 0 <= i < cs.len() ==> table_matches(
        #[trigger] cs[i],
        rs[i],
    )
}

pub open spec fn script_table_ok(c: XmlNode) -> bool {
    spec_attr(c, "key"@) is Some && tables_ok(children_named(c.children@, "table"@))
}

pub open spec fn script_table_matches(c: XmlNode, st: ScriptTable) -> bool {
    &&& spec_attr(c, "key"@) == Some(st.key)
    &&& tables_match(children_named(c.children@, "table"@), st.table@)
}

pub open spec fn script_tables_ok(cs: Seq<XmlNode>) -> bool {
    forall|i: int| 0 <= i < cs.len() ==> script_table_ok(#[trigger] cs[i])
}

pub open spec fn script_tables_match(cs: Seq<XmlNode>, rs: Seq<ScriptTable>) -> bool {
    cs.len() == rs.len() && forall|i: int| 0 <= i < cs.len() ==> script_table_matches(
        #[trigger] cs[i],
        rs[i],
    )
}

pub open spec fn script_ok(c: XmlNode) -> bool {
    script_tables_ok(children_named(c.children@, "table"@))
}

pub open spec fn script_matches(c: XmlNode, sc: Script) -> bool {
    script_tables_match(children_named(c.children@, "table"@), sc.tables@)
}

pub open spec fn scripts_ok(cs: Seq<XmlNode>) -> bool {
    forall|i: int| 0 <= i < cs.len() ==> script_ok(#[trigger] cs[i])
}

pub open spec fn scripts_match(cs: Seq<XmlNode>, rs: Seq<Script>) -> bool {
    cs.len() == rs.len() && forall|i: int| 0 <= i < cs.len() ==> script_matches(
        #[trigger] cs[i],
        rs[i],
    )
}

fn elem_from(c: &XmlNode) -> (r: Result<Elem, ParseError>)
    ensures
        r is Ok <==> elem_ok(*c),
        r matches Ok(e) ==> elem_matches(*c, e),
        r matches Err(e) ==> e == ParseError::MissingField,
{
    match find_attr(c, "key") {
        None => Err(ParseError::MissingField),
        Some(key) => Ok(Elem { key, value: c.text.clone() }),
    }
}


fn table_elems(n: &XmlNode) -> (r: Result<Vec<Elem>, ParseError>)
    ensures
        r is Ok <==> elems_ok(children_named(n.children@, "elem"@)),
        r matches Ok(v) ==> elems_match(children_named(n.children@, "elem"@), v@),
        r matches Err(e) ==> e == ParseError::MissingField,
{
    let mut out: Vec<Elem> = Vec::new();
    let mut i: usize = 0;
    while i < n.children.len()
        invariant
            0 <= i <= n.children@.len(),
            elems_ok(children_named(n.children@.take(i as int), "elem"@)),
            elems_match(children_named(n.children@.take(i as int), "elem"@), out@),
        decreases n.children@.len() - i,
    {
        let c: &XmlNode = &n.children[i];
        proof {
            lemma_children_named_take_step(n.children@, i as int, "elem"@);
        }
        if str_eq(c.name.as_str(), "elem") {
            match elem_from(c) {
                Err(e) => {
                    proof {
                        lemma_children_named_at(n.children@, i as int, "elem"@);
                        let pre = children_named(n.children@.take(i as int), "elem"@);
                        let all = children_named(n.children@, "elem"@);
                        assert(!elem_ok(all[pre.len() as int]));
                        assert(!elems_ok(all));
                    }
                    return Err(e);
                },
                Ok(x) => {
                    out.push(x);
                },
            }
        }
        i = i + 1;
    }
    proof {
        assert(n.children@.take(n.children@.len() as int) =~= n.children@);
    }
    Ok(out)
}


fn table_from(c: &XmlNode) -> (r: Result<Table, ParseError>)
    ensures
        r is Ok <==> table_ok(*c),
        r matches Ok(t) ==> table_matches(*c, t),
        r matches Err(e) ==> e == ParseError::MissingField,
{
    match table_elems(c) {
        Err(e) => Err(e),
        Ok(elem) => Ok(Table { elem }),
    }
}


fn script_table_tables(n: &XmlNode) -> (r: Result<Vec<Table>, ParseError>)
    ensures
        r is Ok <==> tables_ok(children_named(n.children@, "table"@)),
        r matches Ok(v) ==> tables_match(children_named(n.children@, "table"@), v@),
        r matches Err(e) ==> e == ParseError::MissingField,
{
    let mut out: Vec<Table> = Vec::new();
    let mut i: usize = 0;
    while i < n.children.len()
        invariant
            0 <= i <= n.children@.len(),
            tables_ok(children_named(n.children@.take(i as int), "table"@)),
            tables_match(children_named(n.children@.take(i as int), "table"@), out@),
        decreases n.children@.len() - i,
    {
        let c: &XmlNode = &n.children[i];
        proof {
            lemma_children_named_take_step(n.children@, i as int, "table"@);
        }
        if str_eq(c.name.as_str(), "table") {
            match table_from(c) {
                Err(e) => {
                    proof {
                        lemma_children_named_at(n.children@, i as int, "table"@);
                        let pre = children_named(n.children@.take(i as int), "table"@);
                        let all = children_named(n.children@, "table"@);
                        assert(!table_ok(all[pre.len() as int]));
                        assert(!tables_ok(all));
                    }
                    return Err(e);
                },
                Ok(x) => {
                    out.push(x);
                },
            }
        }
        i = i + 1;
    }
    proof {
        assert(n.children@.take(n.children@.len() as int) =~= n.children@);
    }
    Ok(out)
}


fn script_table_from(c: &XmlNode) -> (r: Result<ScriptTable, ParseError>)
    ensures
        r is Ok <==> script_table_ok(*c),
        r matches Ok(st) ==> script_table_matches(*c, st),
        r matches Err(e) ==> e == ParseError::MissingField,
{
    let key: String = match find_attr(c, "key") {
        None => {
            return Err(ParseError::MissingField);
        },
        Some(k) => k,
    };
    match script_table_tables(c) {
        Err(e) => Err(e),
        Ok(table) => Ok(ScriptTable { key, table }),
    }
}


fn script_script_tables(n: &XmlNode) -> (r: Result<Vec<ScriptTable>, ParseError>)
    ensures
        r is Ok <==> script_tables_ok(children_named(n.children@, "table"@)),
        r matches Ok(v) ==> script_tables_match(children_named(n.children@, "table"@), v@),
        r matches Err(e) ==> e == ParseError::MissingField,
{
    let mut out: Vec<ScriptTable> = Vec::new();
    let mut i: usize = 0;
    while i < n.children.len()
        invariant
            0 <= i <= n.children@.len(),
            script_tables_ok(children_named(n.children@.take(i as int), "table"@)),
            script_tables_match(children_named(n.children@.take(i as int), "table"@), out@),
        decreases n.children@.len() - i,
    {
        let c: &XmlNode = &n.children[i];
        proof {
            lemma_children_named_take_step(n.children@, i as int, "table"@);
        }
        if str_eq(c.name.as_str(), "table") {
            match script_table_from(c) {
                Err(e) => {
                    proof {
                        lemma_children_named_at(n.children@, i as int, "table"@);
                        let pre = children_named(n.children@.take(i as int), "table"@);
                        let all = children_named(n.children@, "table"@);
                        assert(!script_table_ok(all[pre.len() as int]));
                        assert(!script_tables_ok(all));
                    }
                    return Err(e);
                },
                Ok(x) => {
                    out.push(x);
                },
            }
        }
        i = i + 1;
    }
    proof {
        assert(n.children@.take(n.children@.len() as int) =~= n.children@);
    }
    Ok(out)
}


fn script_from(c: &XmlNode) -> (r: Result<Script, ParseError>)
    ensures
        r is Ok <==> script_ok(*c),
        r matches Ok(sc) ==> script_matches(*c, sc),
        r matches Err(e) ==> e == ParseError::MissingField,
{
    match script_script_tables(c) {
        Err(e) => Err(e),
        Ok(tables) => Ok(Script { tables }),
    }
}


fn port_scripts(n: &XmlNode) -> (r: Result<Vec<Script>, ParseError>)
    ensures
        r is Ok <==> scripts_ok(children_named(n.children@, "script"@)),
        r matches Ok(v) ==> scripts_match(children_named(n.children@, "script"@), v@),
        r matches Err(e) ==> e == ParseError::MissingField,
{
    let mut out: Vec<Script> = Vec::new();
    let mut i: usize = 0;
    while i < n.children.len()
        invariant
            0 <= i <= n.children@.len(),
            scripts_ok(children_named(n.children@.take(i as int), "script"@)),
            scripts_match(children_named(n.children@.take(i as int), "script"@), out@),
        decreases n.children@.len() - i,
    {
        let c: &XmlNode = &n.children[i];
        proof {
            lemma_children_named_take_step(n.children@, i as int, "script"@);
        }
        if str_eq(c.name.as_str(), "script") {
            match script_from(c) {
                Err(e) => {
                    proof {
                        lemma_children_named_at(n.children@, i as int, "script"@);
                        let pre = children_named(n.children@.take(i as int), "script"@);
                        let all = children_named(n.children@, "script"@);
                        assert(!script_ok(all[pre.len() as int]));
                        assert(!scripts_ok(all));
                    }
                    return Err(e);
                },
                Ok(x) => {
                    out.push(x);
                },
            }
        }
        i = i + 1;
    }
    proof {
        assert(n.children@.take(n.children@.len() as int) =~= n.children@);
    }
    Ok(out)
}

// ---------------------------------------------------------------------------
// services, CPE lists, ports

pub open spec fn cpe_matches(c: XmlNode, p: Cpe) -> bool {
    p.value == c.text
}

pub open spec fn cpes_match(cs: Seq<XmlNode>, rs: Seq<Cpe>) -> bool {
    cs.len() == rs.len() && forall|i: int| 0 <= i < cs.len() ==> cpe_matches(
        #[trigger] cs[i],
        rs[i],
    )
}

/// The optional CPE list: absent where the element has no `cpe` children.
pub open spec fn opt_cpes_matches(cs: Seq<XmlNode>, o: Option<Vec<Cpe>>) -> bool {
    if cs.len() == 0 {
        o is None
    } else {
        o matches Some(v) && cpes_match(cs, v@)
    }
}

pub open spec fn service_matches(c: XmlNode, sv: Service) -> bool {
    &&& sv.name == spec_attr(c, "name"@)
    &&& sv.product == spec_attr(c, "product"@)
    &&& sv.version == spec_attr(c, "version"@)
    &&& sv.extrainfo == spec_attr(c, "extrainfo"@)
    &&& sv.ostype == spec_attr(c, "ostype"@)
    &&& opt_cpes_matches(children_named(c.children@, "cpe"@), sv.cpe)
}

pub open spec fn state_matches(c: XmlNode, st: State) -> bool {
    spec_attr(c, "state"@) == Some(st.state) && spec_attr(c, "reason"@) == Some(st.reason)
}

pub open spec fn port_ok(c: XmlNode) -> bool {
    &&& spec_attr(c, "protocol"@) is Some
    &&& spec_attr(c, "portid"@) is Some
    &&& match first_child(c, "state"@) {
        Some(sc) => status_ok(sc),
        None => false,
    }
    &&& scripts_ok(children_named(c.children@, "script"@))
}

pub open spec fn port_matches(c: XmlNode, p: Port) -> bool {
    &&& spec_attr(c, "protocol"@) == Some(p.protocol)
    &&& spec_attr(c, "portid"@) == Some(p.portid)
    &&& (first_child(c, "state"@) matches Some(sc) && state_matches(sc, p.state))
    &&& match first_child(c, "service"@) {
        None => p.service is None,
        Some(sn) => p.service matches Some(sv) && service_matches(sn, sv),
    }
    &&& scripts_match(children_named(c.children@, "script"@), p.script@)
}

pub open spec fn ports_ok(cs: Seq<XmlNode>) -> bool {
    forall|i: int| 0 <= i < cs.len() ==> port_ok(#[trigger] cs[i])
}

pub open spec fn ports_match(cs: Seq<XmlNode>, rs: Seq<Port>) -> bool {
    cs.len() == rs.len() && forall|i: int| 0 <= i < cs.len() ==> port_matches(
        #[trigger] cs[i],
        rs[i],
    )
}

fn node_cpes(n: &XmlNode) -> (r: Vec<Cpe>)
    ensures
        cpes_match(children_named(n.children@, "cpe"@), r@),
{
    let mut out: Vec<Cpe> = Vec::new();
    let mut i: usize = 0;
    while i < n.children.len()
        invariant
            0 <= i <= n.children@.len(),
            cpes_match(children_named(n.children@.take(i as int), "cpe"@), out@),
        decreases n.children@.len() - i,
    {
        let c: &XmlNode = &n.children[i];
        proof {
            lemma_children_named_take_step(n.children@, i as int, "cpe"@);
        }
        if str_eq(c.name.as_str(), "cpe") {
            let x: Cpe = cpe_from(c);
            out.push(x);
        }
        i = i + 1;
    }
    proof {
        assert(n.children@.take(n.children@.len() as int) =~= n.children@);
    }
    out
}

fn cpe_from(c: &XmlNode) -> (r: Cpe)
    ensures
        cpe_matches(*c, r),
{
    Cpe { value: c.text.clone() }
}

fn service_from(c: &XmlNode) -> (r: Service)
    ensures
        service_matches(*c, r),
{
    let name: Option<String> = find_attr(c, "name");
    let product: Option<String> = find_attr(c, "product");
    let version: Option<String> = find_attr(c, "version");
    let extrainfo: Option<String> = find_attr(c, "extrainfo");
    let ostype: Option<String> = find_attr(c, "ostype");
    let cpes: Vec<Cpe> = node_cpes(c);
    let cpe: Option<Vec<Cpe>> = if cpes.len() == 0 {
        None
    } else {
        Some(cpes)
    };
    Service { name, product, version, extrainfo, ostype, cpe }
}

fn state_from(c: &XmlNode) -> (r: Result<State, ParseError>)
    ensures
        r is Ok <==> status_ok(*c),
        r matches Ok(st) ==> state_matches(*c, st),
        r matches Err(e) ==> e == ParseError::MissingField,
{
    let state: Option<String> = find_attr(c, "state");
    let reason: Option<String> = find_attr(c, "reason");
    match (state, reason) {
        (Some(state), Some(reason)) => Ok(State { state, reason }),
        _ => Err(ParseError::MissingField),
    }
}

fn port_from(c: &XmlNode) -> (r: Result<Port, ParseError>)
    ensures
        r is Ok <==> port_ok(*c),
        r matches Ok(p) ==> port_matches(*c, p),
        r matches Err(e) ==> e == ParseError::MissingField,
{
    let protocol: String = match find_attr(c, "protocol") {
        None => {
            return Err(ParseError::MissingField);
        },
        Some(v) => v,
    };
    let portid: String = match find_attr(c, "portid") {
        None => {
            return Err(ParseError::MissingField);
        },
        Some(v) => v,
    };
    let state: State = match find_child(c, "state") {
        None => {
            return Err(ParseError::MissingField);
        },
        Some(sc) => match state_from(sc) {
            Err(e) => {
                return Err(e);
            },
            Ok(st) => st,
        },
    };
    let service: Option<Service> = match find_child(c, "service") {
        None => None,
        Some(sn) => Some(service_from(sn)),
    };
    let script: Vec<Script> = match port_scripts(c) {
        Err(e) => {
            return Err(e);
        },
        Ok(v) => v,
    };
    Ok(Port { protocol, portid, state, service, script })
}

fn node_ports(n: &XmlNode) -> (r: Result<Vec<Port>, ParseError>)
    ensures
        r is Ok <==> ports_ok(children_named(n.children@, "port"@)),
        r matches Ok(v) ==> ports_match(children_named(n.children@, "port"@), v@),
        r matches Err(e) ==> e == ParseError::MissingField,
{
    let mut out: Vec<Port> = Vec::new();
    let mut i: usize = 0;
    while i < n.children.len()
        invariant
            0 <= i <= n.children@.len(),
            ports_ok(children_named(n.children@.take(i as int), "port"@)),
            ports_match(children_named(n.children@.take(i as int), "port"@), out@),
        decreases n.children@.len() - i,
    {
        let c: &XmlNode = &n.children[i];
        proof {
            lemma_children_named_take_step(n.children@, i as int, "port"@);
        }
        if str_eq(c.name.as_str(), "port") {
            match port_from(c) {
                Err(e) => {
                    proof {
                        lemma_children_named_at(n.children@, i as int, "port"@);
                        let pre = children_named(n.children@.take(i as int), "port"@);
                        let all = children_named(n.children@, "port"@);
                        assert(!port_ok(all[pre.len() as int]));
                        assert(!ports_ok(all));
                    }
                    return Err(e);
                },
                Ok(x) => {
                    out.push(x);
                },
            }
        }
        i = i + 1;
    }
    proof {
        assert(n.children@.take(n.children@.len() as int) =~= n.children@);
    }
    Ok(out)
}

// ---------------------------------------------------------------------------
// OS guesses

pub open spec fn osclass_matches(c: XmlNode, oc: OSClass) -> bool {
    &&& oc.os_type == spec_attr(c, "type"@)
    &&& oc.vendor == spec_attr(c, "vendor"@)
    &&& oc.osfamily == spec_attr(c, "osfamily"@)
    &&& opt_cpes_matches(children_named(c.children@, "cpe"@), oc.cpe)
}

pub open spec fn osclasses_match(cs: Seq<XmlNode>, rs: Seq<OSClass>) -> bool {
    cs.len() == rs.len() && forall|i: int| 0 <= i < cs.len() ==> osclass_matches(
        #[trigger] cs[i],
        rs[i],
    )
}

pub open spec fn osmatch_ok(c: XmlNode) -> bool {
    spec_attr(c, "name"@) is Some
}

pub open spec fn osmatch_matches(c: XmlNode, om: OSMatch) -> bool {
    &&& spec_attr(c, "name"@) == Some(om.name)
    &&& osclasses_match(children_named(c.children@, "osclass"@), om.osclass@)
}

pub open spec fn osmatches_ok(cs: Seq<XmlNode>) -> bool {
    forall|i: int| 0 <= i < cs.len() ==> osmatch_ok(#[trigger] cs[i])
}

pub open spec fn osmatches_match(cs: Seq<XmlNode>, rs: Seq<OSMatch>) -> bool {
    cs.len() == rs.len() && forall|i: int| 0 <= i < cs.len() ==> osmatch_matches(
        #[trigger] cs[i],
        rs[i],
    )
}

fn osclass_from(c: &XmlNode) -> (r: OSClass)
    ensures
        osclass_matches(*c, r),
{
    let os_type: Option<String> = find_attr(c, "type");
    let vendor: Option<String> = find_attr(c, "vendor");
    let osfamily: Option<String> = find_attr(c, "osfamily");
    let cpes: Vec<Cpe> = node_cpes(c);
    let cpe: Option<Vec<Cpe>> = if cpes.len() == 0 {
        None
    } else {
        Some(cpes)
    };
    OSClass { os_type, vendor, osfamily, cpe }
}

fn node_osclasses(n: &XmlNode) -> (r: Vec<OSClass>)
    ensures
        osclasses_match(children_named(n.children@, "osclass"@), r@),
{
    let mut out: Vec<OSClass> = Vec::new();
    let mut i: usize = 0;
    while i < n.children.len()
        invariant
            0 <= i <= n.children@.len(),
            osclasses_match(children_named(n.children@.take(i as int), "osclass"@), out@),
        decreases n.children@.len() - i,
    {
        let c: &XmlNode = &n.children[i];
        proof {
            lemma_children_named_take_step(n.children@, i as int, "osclass"@);
        }
        if str_eq(c.name.as_str(), "osclass") {
            let x: OSClass = osclass_from(c);
            out.push(x);
        }
        i = i + 1;
    }
    proof {
        assert(n.children@.take(n.children@.len() as int) =~= n.children@);
    }
    out
}

fn osmatch_from(c: &XmlNode) -> (r: Result<OSMatch, ParseError>)
    ensures
        r is Ok <==> osmatch_ok(*c),
        r matches Ok(om) ==> osmatch_matches(*c, om),
        r matches Err(e) ==> e == ParseError::MissingField,
{
    let name: String = match find_attr(c, "name") {
        None => {
            return Err(ParseError::MissingField);
        },
        Some(v) => v,
    };
    let osclass: Vec<OSClass> = node_osclasses(c);
    Ok(OSMatch { name, osclass })
}

fn node_osmatches(n: &XmlNode) -> (r: Result<Vec<OSMatch>, ParseError>)
    ensures
        r is Ok <==> osmatches_ok(children_named(n.children@, "osmatch"@)),
        r matches Ok(v) ==> osmatches_match(children_named(n.children@, "osmatch"@), v@),
        r matches Err(e) ==> e == ParseError::MissingField,
{
    let mut out: Vec<OSMatch> = Vec::new();
    let mut i: usize = 0;
    while i < n.children.len()
        invariant
            0 <= i <= n.children@.len(),
            osmatches_ok(children_named(n.children@.take(i as int), "osmatch"@)),
            osmatches_match(children_named(n.children@.take(i as int), "osmatch"@), out@),
        decreases n.children@.len() - i,
    {
        let c: &XmlNode = &n.children[i];
        proof {
            lemma_children_named_take_step(n.children@, i as int, "osmatch"@);
        }
        if str_eq(c.name.as_str(), "osmatch") {
            match osmatch_from(c) {
                Err(e) => {
                    proof {
                        lemma_children_named_at(n.children@, i as int, "osmatch"@);
                        let pre = children_named(n.children@.take(i as int), "osmatch"@);
                        let all = children_named(n.children@, "osmatch"@);
                        assert(!osmatch_ok(all[pre.len() as int]));
                        assert(!osmatches_ok(all));
                    }
                    return Err(e);
                },
                Ok(x) => {
                    out.push(x);
                },
            }
        }
        i = i + 1;
    }
    proof {
        assert(n.children@.take(n.children@.len() as int) =~= n.children@);
    }
    Ok(out)
}

// ---------------------------------------------------------------------------
// hosts and the whole report

pub open spec fn host_ok(c: XmlNode) -> bool {
    &&& match first_child(c, "status"@) {
        Some(sc) => status_ok(sc),
        None => true,
    }
    &&& addresses_ok(children_named(c.children@, "address"@))
    &&& match first_child(c, "ports"@) {
        Some(pn) => ports_ok(children_named(pn.children@, "port"@)),
        None => true,
    }
    &&& match first_child(c, "os"@) {
        Some(on) => osmatches_ok(children_named(on.children@, "osmatch"@)),
        None => true,
    }
}

pub open spec fn host_matches(c: XmlNode, he: HostEntry) -> bool {
    &&& match first_child(c, "status"@) {
        None => he.status is None,
        Some(sc) => he.status matches Some(st) && status_matches(sc, st),
    }
    &&& addresses_match(children_named(c.children@, "address"@), he.address@)
    &&& match first_child(c, "ports"@) {
        None => he.ports is None,
        Some(pn) => he.ports matches Some(v) && ports_match(
            children_named(pn.children@, "port"@),
            v@,
        ),
    }
    &&& match first_child(c, "os"@) {
        None => he.os is None,
        Some(on) => he.os matches Some(v) && osmatches_match(
            children_named(on.children@, "osmatch"@),
            v@,
        ),
    }
}

pub open spec fn hosts_ok(cs: Seq<XmlNode>) -> bool {
    forall|i: int| 0 <= i < cs.len() ==> host_ok(#[trigger] cs[i])
}

pub open spec fn hosts_match(cs: Seq<XmlNode>, rs: Seq<HostEntry>) -> bool {
    cs.len() == rs.len() && forall|i: int| 0 <= i < cs.len() ==> host_matches(
        #[trigger] cs[i],
        rs[i],
    )
}

fn host_from(c: &XmlNode) -> (r: Result<HostEntry, ParseError>)
    ensures
        r is Ok <==> host_ok(*c),
        r matches Ok(he) ==> host_matches(*c, he),
        r matches Err(e) ==> e == ParseError::MissingField,
{
    let status: Option<Status> = match find_child(c, "status") {
        None => None,
        Some(sc) => match status_from(sc) {
            Err(e) => {
                return Err(e);
            },
            Ok(st) => Some(st),
        },
    };
    let address: Vec<Address> = match host_addresses(c) {
        Err(e) => {
            return Err(e);
        },
        Ok(v) => v,
    };
    let ports: Option<Vec<Port>> = match find_child(c, "ports") {
        None => None,
        Some(pn) => match node_ports(pn) {
            Err(e) => {
                return Err(e);
            },
            Ok(v) => Some(v),
        },
    };
    let os: Option<Vec<OSMatch>> = match find_child(c, "os") {
        None => None,
        Some(on) => match node_osmatches(on) {
            Err(e) => {
                return Err(e);
            },
            Ok(v) => Some(v),
        },
    };
    Ok(HostEntry { status, address, ports, os })
}

fn root_hosts(n: &XmlNode) -> (r: Result<Vec<HostEntry>, ParseError>)
    ensures
        r is Ok <==> hosts_ok(children_named(n.children@, "host"@)),
        r matches Ok(v) ==> hosts_match(children_named(n.children@, "host"@), v@),
        r matches Err(e) ==> e == ParseError::MissingField,
{
    let mut out: Vec<HostEntry> = Vec::new();
    let mut i: usize = 0;
    while i < n.children.len()
        invariant
            0 <= i <= n.children@.len(),
            hosts_ok(children_named(n.children@.take(i as int), "host"@)),
            hosts_match(children_named(n.children@.take(i as int), "host"@), out@),
        decreases n.children@.len() - i,
    {
        let c: &XmlNode = &n.children[i];
        proof {
            lemma_children_named_take_step(n.children@, i as int, "host"@);
        }
        if str_eq(c.name.as_str(), "host") {
            match host_from(c) {
                Err(e) => {
                    proof {
                        lemma_children_named_at(n.children@, i as int, "host"@);
                        let pre = children_named(n.children@.take(i as int), "host"@);
                        let all = children_named(n.children@, "host"@);
                        assert(!host_ok(all[pre.len() as int]));
                        assert(!hosts_ok(all));
                    }
                    return Err(e);
                },
                Ok(x) => {
                    out.push(x);
                },
            }
        }
        i = i + 1;
    }
    proof {
        assert(n.children@.take(n.children@.len() as int) =~= n.children@);
    }
    Ok(out)
}

/// Whether an XML tree is a readable report: the right root element, and
/// every host entry complete.
pub open spec fn report_readable(root: XmlNode) -> bool {
    root.name@ == "nmaprun"@ && hosts_ok(children_named(root.children@, "host"@))
}

/// Reads the report tree out of the XML tree: one host entry per `host`
/// child of the root, in document order, each as `host_matches` states.
pub fn report_from_xml(root: &XmlNode) -> (r: Result<ScanReport, ParseError>)
    ensures
        r is Ok <==> report_readable(*root),
        r matches Ok(rep) ==> hosts_match(children_named(root.children@, "host"@), rep.hosts@),
        root.name@ != "nmaprun"@ ==> (r matches Err(e) && e == ParseError::WrongRoot),
        (r matches Err(e) && e == ParseError::WrongRoot) ==> root.name@ != "nmaprun"@,
        r matches Err(e) ==> (e == ParseError::WrongRoot || e == ParseError::MissingField),
{
    if !str_eq(root.name.as_str(), "nmaprun") {
        return Err(ParseError::WrongRoot);
    }
    match root_hosts(root) {
        Err(e) => Err(e),
        Ok(hosts) => Ok(ScanReport { hosts }),
    }
}
} // verus!

//! The entity model: `Name`, `Props`, `Context`, `Address`, `Network`.
//!
//! Every type has a byte-level view; contracts speak of those views.
//! Serialization to the store's bulk row format is fixed per entity kind:
//! tab-separated columns, newline-terminated, each text column escaped by
//! the store's bulk escape convention (see `jsontext`).

use vstd::prelude::*;
use crate::textutil::str_bytes;
use crate::jsontext::{
    json_quote, copy_escape, push_json_quoted, push_copy_escaped,
};
use crate::hexcodec::{
    bytes_hex, ewkb_point_bytes, ewkb_multiline_bytes, lines_view, encode_point_hex,
    encode_multiline_hex,
};
use crate::textutil::{push_all, string_bytes, bytes_to_string};

verus! {

/// One street-name synonym: display text plus a kind tag.
pub struct Name {
    pub text: String,
    pub tag: String,
}

/// View of a `Name`: its UTF-8 bytes.
pub ghost struct NameV {
    pub text: Seq<u8>,
    pub tag: Seq<u8>,
}

impl View for Name {
    type V = NameV;

    open spec fn view(&self) -> NameV {
        NameV { text: str_bytes(self.text@), tag: str_bytes(self.tag@) }
    }
}

impl Clone for Name {
    fn clone(&self) -> (res: Self)
        ensures
            res == *self,
    {
        Name { text: self.text.clone(), tag: self.tag.clone() }
    }
}

/// View of a sequence of names.
pub open spec fn names_view(v: Seq<Name>) -> Seq<NameV> {
    Seq::new(v.len(), |i: int| v[i]@)
}

/// Ordered string-keyed properties; values carry their JSON text
/// verbatim, keys are unique and keep insertion order.
pub struct Props {
    pub entries: Vec<(String, String)>,
}

impl View for Props {
    type V = Seq<(Seq<u8>, Seq<u8>)>;

    open spec fn view(&self) -> Seq<(Seq<u8>, Seq<u8>)> {
        Seq::new(
            self.entries@.len(),
            |i: int| (str_bytes(self.entries@[i].0@), str_bytes(self.entries@[i].1@)),
        )
    }
}

impl Props {
    /// No two entries share a key.
    pub open spec fn wf(&self) -> bool {
        forall|i: int, j: int| 0 <= i < j < self@.len() ==> self@[i].0 != self@[j].0
    }

    /// An empty property map.
    pub fn new() -> (r: Props)
        ensures
            r@ == Seq::<(Seq<u8>, Seq<u8>)>::empty(),
            r.wf(),
    {
        let r = Props { entries: Vec::new() };
        assert(r@ =~= Seq::<(Seq<u8>, Seq<u8>)>::empty());
        r
    }
}

impl Clone for Props {
    fn clone(&self) -> (res: Self)
        ensures
            res@ == self@,
            res.entries@ == self.entries@,
    {
        let mut e: Vec<(String, String)> = Vec::new();
        let mut i: usize = 0;
        while i < self.entries.len()
            invariant
                i <= self.entries@.len(),
                e@ == self.entries@.subrange(0, i as int),
            decreases self.entries@.len() - i,
        {
            let pair = (self.entries[i].0.clone(), self.entries[i].1.clone());
            e.push(pair);
            assert(e@ =~= self.entries@.subrange(0, i + 1));
            i = i + 1;
        }
        assert(e@ =~= self.entries@);
        let res = Props { entries: e };
        assert(res@ =~= self@);
        res
    }
}

/// Normalization configuration: a base locale tag, an optional region
/// scope, and the token map (raw token bytes to canonical token bytes),
/// applied after ASCII lower-casing.
pub struct Context {
    pub locale: String,
    pub region: Option<String>,
    pub tokens: Vec<(String, String)>,
}

/// View of the token map.
pub open spec fn tokens_view(t: Seq<(String, String)>) -> Seq<(Seq<u8>, Seq<u8>)> {
    Seq::new(t.len(), |i: int| (str_bytes(t[i].0@), str_bytes(t[i].1@)))
}

impl Context {
    /// A context with no token rules.
    pub fn new(locale: String, region: Option<String>) -> (r: Context)
        ensures
            tokens_view(r.tokens@) == Seq::<(Seq<u8>, Seq<u8>)>::empty(),
            r.locale == locale,
            r.region == region,
    {
        let r = Context { locale, region, tokens: Vec::new() };
        assert(tokens_view(r.tokens@) =~= Seq::<(Seq<u8>, Seq<u8>)>::empty());
        r
    }
}

/// A single address point.
pub struct Address {
    /// Store identifier; present exactly when the record is persistent.
    pub id: Option<i64>,
    /// House number, numeric or semi-numeric (`100` or `100a`).
    pub number: String,
    /// Street-name synonyms, primary name first.
    pub names: Vec<Name>,
    /// Provenance or timestamp tag.
    pub source: Option<String>,
    /// Whether the feature is output.
    pub output: bool,
    /// Whether the feature seeds interpolation.
    pub interpolate: bool,
    /// Further properties, order-stable.
    pub props: Props,
    /// Longitude and latitude as binary64 bit patterns.
    pub geom: (u64, u64),
}

/// View of an `Address`.
pub ghost struct AddressV {
    pub id: Option<i64>,
    pub number: Seq<u8>,
    pub names: Seq<NameV>,
    pub source: Option<Seq<u8>>,
    pub output: bool,
    pub interpolate: bool,
    pub props: Seq<(Seq<u8>, Seq<u8>)>,
    pub geom: (u64, u64),
}

/// View of an optional string.
pub open spec fn opt_bytes(s: Option<String>) -> Option<Seq<u8>> {
    match s {
        Some(t) => Some(str_bytes(t@)),
        None => None,
    }
}

impl View for Address {
    type V = AddressV;

    open spec fn view(&self) -> AddressV {
        AddressV {
            id: self.id,
            number: str_bytes(self.number@),
            names: names_view(self.names@),
            source: opt_bytes(self.source),
            output: self.output,
            interpolate: self.interpolate,
            props: self.props@,
            geom: self.geom,
        }
    }
}

/// A street-network feature.
pub struct Network {
    /// Store identifier; present exactly when the record is persistent.
    pub id: Option<i64>,
    /// Street-name synonyms, primary name first.
    pub names: Vec<Name>,
    /// Provenance or timestamp tag.
    pub source: Option<String>,
    /// Further properties, order-stable.
    pub props: Props,
    /// A multi-polyline: lon/lat pairs as binary64 bit patterns.
    pub geom: Vec<Vec<(u64, u64)>>,
}

/// View of a `Network`.
pub ghost struct NetworkV {
    pub id: Option<i64>,
    pub names: Seq<NameV>,
    pub source: Option<Seq<u8>>,
    pub props: Seq<(Seq<u8>, Seq<u8>)>,
    pub geom: Seq<Seq<(u64, u64)>>,
}

impl View for Network {
    type V = NetworkV;

    open spec fn view(&self) -> NetworkV {
        NetworkV {
            id: self.id,
            names: names_view(self.names@),
            source: opt_bytes(self.source),
            props: self.props@,
            geom: lines_view(self.geom@),
        }
    }
}

/// Clone a name vector, preserving every element.
pub fn clone_names(v: &Vec<Name>) -> (r: Vec<Name>)
    ensures
        r@ == v@,
{
    let mut r: Vec<Name> = Vec::new();
    let mut i: usize = 0;
    while i < v.len()
        invariant
            i <= v@.len(),
            r@ == v@.subrange(0, i as int),
        decreases v@.len() - i,
    {
        r.push(v[i].clone());
        assert(r@ =~= v@.subrange(0, i + 1));
        i = i + 1;
    }
    assert(r@ =~= v@);
    r
}

impl Clone for Address {
    fn clone(&self) -> (res: Self)
        ensures
            res@ == self@,
            res.id == self.id,
            res.geom == self.geom,
    {
        Address {
            id: self.id,
            number: self.number.clone(),
            names: clone_names(&self.names),
            source: (match &self.source {
                Some(s) => Some(s.clone()),
                None => None,
            }),
            output: self.output,
            interpolate: self.interpolate,
            props: self.props.clone(),
            geom: self.geom,
        }
    }
}


// ----------------------------------------------------------- JSON shapes
/// JSON object of one name: `{"text":...,"tag":...}`.
pub open spec fn name_json(n: NameV) -> Seq<u8> {
    seq![0x7Bu8, 0x22u8, 0x74u8, 0x65u8, 0x78u8, 0x74u8, 0x22u8, 0x3Au8] + json_quote(n.text)
        + seq![0x2Cu8, 0x22u8, 0x74u8, 0x61u8, 0x67u8, 0x22u8, 0x3Au8] + json_quote(n.tag)
        + seq![0x7Du8]
}

/// Comma-joined name objects.
pub open spec fn names_json_items(ns: Seq<NameV>) -> Seq<u8>
    decreases ns.len(),
{
    if ns.len() == 0 {
        Seq::empty()
    } else if ns.len() == 1 {
        name_json(ns[0])
    } else {
        names_json_items(ns.drop_last()) + seq![0x2Cu8] + name_json(ns.last())
    }
}

/// JSON array of name objects.
pub open spec fn names_json(ns: Seq<NameV>) -> Seq<u8> {
    seq![0x5Bu8] + names_json_items(ns) + seq![0x5Du8]
}

/// Comma-joined property members: quoted key, colon, value verbatim.
pub open spec fn props_json_items(ps: Seq<(Seq<u8>, Seq<u8>)>) -> Seq<u8>
    decreases ps.len(),
{
    if ps.len() == 0 {
        Seq::empty()
    } else if ps.len() == 1 {
        json_quote(ps[0].0) + seq![0x3Au8] + ps[0].1
    } else {
        props_json_items(ps.drop_last()) + seq![0x2Cu8] + json_quote(ps.last().0) + seq![0x3Au8]
            + ps.last().1
    }
}

/// JSON object of the property map, insertion order kept.
pub open spec fn props_json(ps: Seq<(Seq<u8>, Seq<u8>)>) -> Seq<u8> {
    seq![0x7Bu8] + props_json_items(ps) + seq![0x7Du8]
}

/// Append the JSON object of one name.
fn push_name_json(out: &mut Vec<u8>, n: &Name)
    ensures
        final(out)@ == old(out)@ + name_json(n@),
{
    out.push(0x7B);
    out.push(0x22);
    out.push(0x74);
    out.push(0x65);
    out.push(0x78);
    out.push(0x74);
    out.push(0x22);
    out.push(0x3A);
    let text = string_bytes(&n.text);
    push_json_quoted(out, &text);
    out.push(0x2C);
    out.push(0x22);
    out.push(0x74);
    out.push(0x61);
    out.push(0x67);
    out.push(0x22);
    out.push(0x3A);
    let tag = string_bytes(&n.tag);
    push_json_quoted(out, &tag);
    out.push(0x7D);
    assert(out@ =~= old(out)@ + name_json(n@));
}

/// Append the JSON array of a name list.
#[verifier::loop_isolation(false)]
pub fn push_names_json(out: &mut Vec<u8>, ns: &Vec<Name>)
    ensures
        final(out)@ == old(out)@ + names_json(names_view(ns@)),
{
    out.push(0x5B);
    let mut i: usize = 0;
    while i < ns.len()
        invariant
            i <= ns@.len(),
            out@ == old(out)@ + seq![0x5Bu8] + names_json_items(names_view(ns@).subrange(0, i as int)),
        decreases ns@.len() - i,
    {
        if i > 0 {
            out.push(0x2C);
        }
        push_name_json(out, &ns[i]);
        proof {
            let pre = names_view(ns@).subrange(0, i as int);
            let cur = names_view(ns@).subrange(0, i + 1);
            assert(cur.drop_last() =~= pre);
            assert(cur.last() == ns@[i as int]@);
            if i == 0 {
                assert(cur.len() == 1);
                assert(names_json_items(cur) == name_json(cur[0]));
            }
            assert(out@ =~= old(out)@ + seq![0x5Bu8] + names_json_items(cur));
        }
        i = i + 1;
    }
    out.push(0x5D);
    proof {
        assert(names_view(ns@).subrange(0, ns@.len() as int) =~= names_view(ns@));
        assert(out@ =~= old(out)@ + names_json(names_view(ns@)));
    }
}

/// Append the JSON object of a property map.
#[verifier::loop_isolation(false)]
pub fn push_props_json(out: &mut Vec<u8>, ps: &Props)
    ensures
        final(out)@ == old(out)@ + props_json(ps@),
{
    out.push(0x7B);
    let mut i: usize = 0;
    while i < ps.entries.len()
        invariant
            i <= ps.entries@.len(),
            out@ == old(out)@ + seq![0x7Bu8] + props_json_items(ps@.subrange(0, i as int)),
        decreases ps.entries@.len() - i,
    {
        if i > 0 {
            out.push(0x2C);
        }
        let key = string_bytes(&ps.entries[i].0);
        push_json_quoted(out, &key);
        out.push(0x3A);
        let val = string_bytes(&ps.entries[i].1);
        push_all(out, &val);
        proof {
            let pre = ps@.subrange(0, i as int);
            let cur = ps@.subrange(0, i + 1);
            assert(cur.drop_last() =~= pre);
            assert(cur.last() == ps@[i as int]);
            if i == 0 {
                assert(cur.len() == 1);
                assert(props_json_items(cur) == json_quote(cur[0].0) + seq![0x3Au8] + cur[0].1);
            }
            assert(out@ =~= old(out)@ + seq![0x7Bu8] + props_json_items(cur));
        }
        i = i + 1;
    }
    out.push(0x7D);
    proof {
        assert(ps@.subrange(0, ps@.len() as int) =~= ps@);
        assert(out@ =~= old(out)@ + props_json(ps@));
    }
}

// ------------------------------------------------------------- bulk rows
/// The bytes of an optional field, empty when absent.
pub open spec fn opt_field(o: Option<Seq<u8>>) -> Seq<u8> {
    match o {
        Some(s) => s,
        None => Seq::empty(),
    }
}

/// The bulk row of an address: names, number, source, props, geometry.
pub open spec fn address_row(a: AddressV) -> Seq<u8> {
    copy_escape(names_json(a.names)) + seq![0x09u8] + copy_escape(a.number) + seq![0x09u8]
        + copy_escape(opt_field(a.source)) + seq![0x09u8] + copy_escape(props_json(a.props))
        + seq![0x09u8] + bytes_hex(ewkb_point_bytes(a.geom.0, a.geom.1)) + seq![0x0Au8]
}

/// The bulk row of a network: names, source, props, geometry.
pub open spec fn network_row(n: NetworkV) -> Seq<u8> {
    copy_escape(names_json(n.names)) + seq![0x09u8] + copy_escape(opt_field(n.source))
        + seq![0x09u8] + copy_escape(props_json(n.props)) + seq![0x09u8] + bytes_hex(
        ewkb_multiline_bytes(n.geom),
    ) + seq![0x0Au8]
}

/// An address is fit for storage: non-empty number, finite geometry.
pub open spec fn addr_wf(a: AddressV) -> bool {
    a.number.len() > 0 && crate::geomath::finite_bits(a.geom.0) && crate::geomath::finite_bits(
        a.geom.1,
    )
}

/// Every point of the line has finite coordinates.
pub open spec fn line_fin(line: Seq<(u64, u64)>) -> bool {
    forall|b: int|
        0 <= b < line.len() ==> crate::geomath::finite_bits(#[trigger] line[b].0)
            && crate::geomath::finite_bits(line[b].1)
}

/// Executable finiteness check of one line.
pub fn line_fin_exec(line: &Vec<(u64, u64)>) -> (r: bool)
    ensures
        r == line_fin(line@),
{
    let mut j: usize = 0;
    while j < line.len()
        invariant
            j <= line@.len(),
            forall|b: int|
                0 <= b < j ==> #[trigger] crate::geomath::finite_bits(line@[b].0)
                    && crate::geomath::finite_bits(line@[b].1),
        decreases line@.len() - j,
    {
        let p = line[j];
        let x = p.0;
        let y = p.1;
        if ((x >> 52) & 0x7FF) == 0x7FF || ((y >> 52) & 0x7FF) == 0x7FF {
            assert(!(crate::geomath::finite_bits(line@[j as int].0) && crate::geomath::finite_bits(
                line@[j as int].1,
            )));
            return false;
        }
        assert(crate::geomath::finite_bits(line@[j as int].0) && crate::geomath::finite_bits(
            line@[j as int].1,
        ));
        assert(forall|b: int|
            0 <= b <= j ==> #[trigger] crate::geomath::finite_bits(line@[b].0)
                && crate::geomath::finite_bits(line@[b].1));
        j = j + 1;
    }
    true
}

/// A network is fit for storage: finite geometry within the count limits
/// of the wire format.
pub open spec fn net_wf(n: NetworkV) -> bool {
    &&& n.geom.len() < 0x1_0000_0000
    &&& forall|i: int| 0 <= i < n.geom.len() ==> #[trigger] n.geom[i].len() < 0x1_0000_0000
    &&& forall|i: int, j: int|
        0 <= i < n.geom.len() && 0 <= j < n.geom[i].len() ==> crate::geomath::finite_bits(
            #[trigger] n.geom[i][j].0,
        ) && crate::geomath::finite_bits(n.geom[i][j].1)
}

impl Address {
    /// The record is fit for storage: non-empty number, finite geometry.
    pub open spec fn wf(self) -> bool {
        addr_wf(self@)
    }

    /// Executable storage-fitness check.
    pub fn wf_exec(&self) -> (r: bool)
        ensures
            r == addr_wf(self@),
    {
        let num = string_bytes(&self.number);
        if num.len() == 0 {
            return false;
        }
        let fx = ((self.geom.0 >> 52) & 0x7FF) != 0x7FF;
        let fy = ((self.geom.1 >> 52) & 0x7FF) != 0x7FF;
        fx && fy
    }

    /// The bulk row of this address, as bytes.
    pub fn row_bytes(&self) -> (r: Vec<u8>)
        ensures
            r@ == address_row(self@),
    {
        let mut out: Vec<u8> = Vec::new();
        let mut names: Vec<u8> = Vec::new();
        push_names_json(&mut names, &self.names);
        push_copy_escaped(&mut out, &names);
        out.push(0x09);
        let number = string_bytes(&self.number);
        push_copy_escaped(&mut out, &number);
        out.push(0x09);
        let src = (match &self.source {
            Some(s) => string_bytes(s),
            None => Vec::new(),
        });
        proof {
            assert(src@ =~= opt_field(self@.source));
        }
        push_copy_escaped(&mut out, &src);
        out.push(0x09);
        let mut props: Vec<u8> = Vec::new();
        push_props_json(&mut props, &self.props);
        push_copy_escaped(&mut out, &props);
        out.push(0x09);
        let geom = encode_point_hex(self.geom.0, self.geom.1);
        push_all(&mut out, &geom);
        out.push(0x0A);
        assert(out@ =~= address_row(self@));
        out
    }

    /// The bulk row of this address, as text.  When the row bytes are
    /// valid UTF-8 — which holds whenever the inputs are, since escaping
    /// only substitutes ASCII — the text carries them exactly.
    pub fn to_tsv(self) -> (r: String)
        ensures
            vstd::utf8::valid_utf8(address_row(self@)) ==> str_bytes(r@) == address_row(self@),
    {
        let row = self.row_bytes();
        match bytes_to_string(row) {
            Some(s) => s,
            None => String::new(),
        }
    }
}

impl Network {
    /// The record is fit for storage: finite geometry within the count
    /// limits of the wire format.
    pub open spec fn wf(self) -> bool {
        net_wf(self@)
    }

    /// Executable storage-fitness check.
    #[verifier::loop_isolation(false)]
    pub fn wf_exec(&self) -> (r: bool)
        ensures
            r == net_wf(self@),
    {
        if self.geom.len() as u64 >= 0x1_0000_0000u64 {
            return false;
        }
        let mut i: usize = 0;
        while i < self.geom.len()
            invariant
                i <= self.geom@.len(),
                forall|a: int|
                    0 <= a < i ==> #[trigger] self@.geom[a].len() < 0x1_0000_0000 && line_fin(
                        self@.geom[a],
                    ),
            decreases self.geom@.len() - i,
        {
            let line = &self.geom[i];
            if line.len() as u64 >= 0x1_0000_0000u64 {
                assert(self@.geom[i as int].len() >= 0x1_0000_0000);
                return false;
            }
            if !line_fin_exec(line) {
                assert(!line_fin(self@.geom[i as int]));
                return false;
            }
            assert(line_fin(self@.geom[i as int]));
            i = i + 1;
        }
        assert forall|a: int, b: int|
            0 <= a < self@.geom.len() && 0 <= b < self@.geom[a].len() implies
            crate::geomath::finite_bits(#[trigger] self@.geom[a][b].0)
                && crate::geomath::finite_bits(self@.geom[a][b].1) by {
            assert(line_fin(self@.geom[a]));
        }
        true
    }

    /// The bulk row of this network, as bytes.
    pub fn row_bytes(&self) -> (r: Vec<u8>)
        requires
            self@.geom.len() < 0x1_0000_0000,
            forall|i: int| 0 <= i < self@.geom.len() ==> #[trigger] self@.geom[i].len() < 0x1_0000_0000,
        ensures
            r@ == network_row(self@),
    {
        let mut out: Vec<u8> = Vec::new();
        let mut names: Vec<u8> = Vec::new();
        push_names_json(&mut names, &self.names);
        push_copy_escaped(&mut out, &names);
        out.push(0x09);
        let src = (match &self.source {
            Some(s) => string_bytes(s),
            None => Vec::new(),
        });
        proof {
            assert(src@ =~= opt_field(self@.source));
        }
        push_copy_escaped(&mut out, &src);
        out.push(0x09);
        let mut props: Vec<u8> = Vec::new();
        push_props_json(&mut props, &self.props);
        push_copy_escaped(&mut out, &props);
        out.push(0x09);
        proof {
            assert forall|i: int| 0 <= i < self.geom@.len() implies #[trigger] self.geom@[i]@.len()
                < 0x1_0000_0000 by {
                assert(self@.geom[i].len() == self.geom@[i]@.len());
            }
        }
        let geom = encode_multiline_hex(&self.geom);
        push_all(&mut out, &geom);
        out.push(0x0A);
        assert(out@ =~= network_row(self@));
        out
    }

    /// The bulk row of this network, as text; exact whenever the row
    /// bytes are valid UTF-8 (see `Address::to_tsv`).
    pub fn to_tsv(self) -> (r: String)
        requires
            self@.geom.len() < 0x1_0000_0000,
            forall|i: int| 0 <= i < self@.geom.len() ==> #[trigger] self@.geom[i].len() < 0x1_0000_0000,
        ensures
            vstd::utf8::valid_utf8(network_row(self@)) ==> str_bytes(r@) == network_row(self@),
    {
        let row = self.row_bytes();
        match bytes_to_string(row) {
            Some(s) => s,
            None => String::new(),
        }
    }
}

} // verus!

//! The property-bag model of a calendar feed and the helpers that read and
//! write it: a `Prop` is one `NAME;PARAM=V1,V2:VALUE` line of a feed block.

use vstd::prelude::*;
use vstd::string::StrSliceExecFns;
use vstd::string::StringExecFns;

use crate::strutil::str_contains_char;
use crate::strutil::str_eq_str;

verus! {

/// One property of a feed component: a name, optional parameters, and an
/// optional value.
#[derive(Debug)]
pub struct Prop {
    /// Property name, for example `DTSTART`.
    pub name: String,
    /// Parameter list: `(parameter name, values)` pairs.
    pub params: Option<Vec<(String, Vec<String>)>>,
    /// Property value text.
    pub value: Option<String>,
}

/// The mathematical shape of a property: every field as sequences.
pub struct PropView {
    pub name: Seq<char>,
    pub params: Option<Seq<(Seq<char>, Seq<Seq<char>>)>>,
    pub value: Option<Seq<char>>,
}

/// The view of one parameter pair.
pub open spec fn spec_param_view(p: (String, Vec<String>)) -> (Seq<char>, Seq<Seq<char>>) {
    (p.0@, p.1@.map_values(|s: String| s@))
}

impl Prop {
    /// The view of this property.
    pub open spec fn pview(self) -> PropView {
        PropView {
            name: self.name@,
            params: match self.params {
                Some(ps) => Some(ps@.map_values(|p: (String, Vec<String>)| spec_param_view(p))),
                None => None,
            },
            value: match self.value {
                Some(v) => Some(v@),
                None => None,
            },
        }
    }

    /// An empty property.
    pub fn new() -> (r: Prop)
        ensures
            r.name@ == Seq::<char>::empty(),
            r.params is None,
            r.value is None,
    {
        Prop { name: String::new(), params: None, value: None }
    }
}

/// Copy a vector of strings, keeping every element's characters.
pub fn clone_string_vec(v: &Vec<String>) -> (r: Vec<String>)
    ensures
        r@.map_values(|s: String| s@) == v@.map_values(|s: String| s@),
        r@.len() == v@.len(),
{
    let mut out: Vec<String> = Vec::new();
    let mut i: usize = 0;
    while i < v.len()
        invariant
            i <= v@.len(),
            out@.len() == i,
            forall|j: int| 0 <= j < i ==> (#[trigger] out@[j])@ == v@[j]@,
        decreases v@.len() - i,
    {
        out.push(v[i].clone());
        i = i + 1;
    }
    proof {
        assert(out@.map_values(|s: String| s@) =~= v@.map_values(|s: String| s@));
    }
    out
}

/// Copy a parameter list, keeping every name and value.
pub fn clone_params(params: &Vec<(String, Vec<String>)>) -> (r: Vec<(String, Vec<String>)>)
    ensures
        r@.map_values(|p: (String, Vec<String>)| spec_param_view(p)) == params@.map_values(
            |p: (String, Vec<String>)| spec_param_view(p),
        ),
        r@.len() == params@.len(),
{
    let mut out: Vec<(String, Vec<String>)> = Vec::new();
    let mut i: usize = 0;
    while i < params.len()
        invariant
            i <= params@.len(),
            out@.len() == i,
            forall|j: int|
                0 <= j < i ==> spec_param_view(#[trigger] out@[j]) == spec_param_view(params@[j]),
        decreases params@.len() - i,
    {
        let p = &params[i];
        out.push((p.0.clone(), clone_string_vec(&p.1)));
        i = i + 1;
    }
    proof {
        assert(out@.map_values(|p: (String, Vec<String>)| spec_param_view(p)) =~= params@.map_values(
            |p: (String, Vec<String>)| spec_param_view(p),
        ));
    }
    out
}

impl Clone for Prop {
    fn clone(&self) -> (r: Self)
        ensures
            r.pview() == self.pview(),
    {
        let params = match &self.params {
            Some(ps) => Some(clone_params(ps)),
            None => None,
        };
        let value = match &self.value {
            Some(v) => Some(v.clone()),
            None => None,
        };
        Prop { name: self.name.clone(), params, value }
    }
}

/// The property bag of one `VEVENT` block of a feed.
#[derive(Debug)]
pub struct RawEvent {
    pub properties: Vec<Prop>,
}

impl RawEvent {
    /// The views of all properties, in order.
    pub open spec fn pviews(self) -> Seq<PropView> {
        self.properties@.map_values(|p: Prop| p.pview())
    }

    /// An event with no properties yet.
    pub fn new() -> (r: RawEvent)
        ensures
            r.properties@.len() == 0,
    {
        RawEvent { properties: Vec::new() }
    }

    /// Append one property.
    pub fn add_property(&mut self, p: Prop)
        ensures
            final(self).properties@ == old(self).properties@.push(p),
    {
        self.properties.push(p);
    }
}

impl Clone for RawEvent {
    fn clone(&self) -> (r: Self)
        ensures
            r.pviews() == self.pviews(),
    {
        let mut properties: Vec<Prop> = Vec::new();
        let mut i: usize = 0;
        while i < self.properties.len()
            invariant
                i <= self.properties@.len(),
                properties@.len() == i,
                forall|j: int|
                    0 <= j < i ==> (#[trigger] properties@[j]).pview()
                        == self.properties@[j].pview(),
            decreases self.properties@.len() - i,
        {
            properties.push(self.properties[i].clone());
            i = i + 1;
        }
        proof {
            assert(properties@.map_values(|p: Prop| p.pview()) =~= self.properties@.map_values(
                |p: Prop| p.pview(),
            ));
        }
        RawEvent { properties }
    }
}

/// The first property of that name, if any.
pub open spec fn spec_find_property(props: Seq<Prop>, name: Seq<char>) -> Option<Prop>
    decreases props.len(),
{
    if props.len() == 0 {
        None
    } else if props[0].name@ == name {
        Some(props[0])
    } else {
        spec_find_property(props.drop_first(), name)
    }
}

/// The first parameter of that name, if any.
pub open spec fn spec_find_param(params: Seq<(String, Vec<String>)>, name: Seq<char>) -> Option<
    Vec<String>,
>
    decreases params.len(),
{
    if params.len() == 0 {
        None
    } else if params[0].0@ == name {
        Some(params[0].1)
    } else {
        spec_find_param(params.drop_first(), name)
    }
}

/// Find the first property with the given name.
pub fn find_property<'a>(properties: &'a Vec<Prop>, name: &str) -> (r: Option<&'a Prop>)
    ensures
        match r {
            Some(p) => spec_find_property(properties@, name@) == Some(*p),
            None => spec_find_property(properties@, name@) is None,
        },
{
    let mut i: usize = 0;
    proof {
        assert(properties@.subrange(0, properties@.len() as int) =~= properties@);
    }
    while i < properties.len()
        invariant
            i <= properties@.len(),
            spec_find_property(properties@, name@) == spec_find_property(
                properties@.subrange(i as int, properties@.len() as int),
                name@,
            ),
        decreases properties@.len() - i,
    {
        proof {
            assert(properties@.subrange(i as int, properties@.len() as int).drop_first()
                =~= properties@.subrange(i + 1, properties@.len() as int));
        }
        if str_eq_str(properties[i].name.as_str(), name) {
            return Some(&properties[i]);
        }
        i = i + 1;
    }
    None
}

/// Find the value text of the first property with the given name. When that
/// property has no value, this is `None` even if a later property matches,
/// mirroring the first-match rule of [`find_property`].
pub fn find_property_value(properties: &Vec<Prop>, name: &str) -> (r: Option<String>)
    ensures
        match spec_find_property(properties@, name@) {
            Some(p) => match (p.value, r) {
                (Some(v), Some(s)) => s@ == v@,
                (None, None) => true,
                _ => false,
            },
            None => r is None,
        },
{
    match find_property(properties, name) {
        Some(p) => match &p.value {
            Some(v) => Some(v.clone()),
            None => None,
        },
        None => None,
    }
}

/// Find the values of the first parameter with the given name.
pub fn find_param<'a>(params: &'a Vec<(String, Vec<String>)>, name: &str) -> (r: Option<
    &'a Vec<String>,
>)
    ensures
        match r {
            Some(vs) => spec_find_param(params@, name@) == Some(*vs),
            None => spec_find_param(params@, name@) is None,
        },
{
    let mut i: usize = 0;
    proof {
        assert(params@.subrange(0, params@.len() as int) =~= params@);
    }
    while i < params.len()
        invariant
            i <= params@.len(),
            spec_find_param(params@, name@) == spec_find_param(
                params@.subrange(i as int, params@.len() as int),
                name@,
            ),
        decreases params@.len() - i,
    {
        proof {
            assert(params@.subrange(i as int, params@.len() as int).drop_first()
                =~= params@.subrange(i + 1, params@.len() as int));
        }
        if str_eq_str(params[i].0.as_str(), name) {
            return Some(&params[i].1);
        }
        i = i + 1;
    }
    None
}

/// A parameter value, quoted when it holds a space.
pub open spec fn spec_quoted(v: Seq<char>) -> Seq<char> {
    if v.contains(' ') {
        seq!['"'] + v + seq!['"']
    } else {
        v
    }
}

/// Parameter values joined by commas, each quoted when needed.
pub open spec fn spec_format_param_values(vals: Seq<String>) -> Seq<char>
    decreases vals.len(),
{
    if vals.len() == 0 {
        Seq::empty()
    } else if vals.len() == 1 {
        spec_quoted(vals[0]@)
    } else {
        spec_format_param_values(vals.drop_last()) + seq![','] + spec_quoted(vals.last()@)
    }
}

/// Render parameter values: comma-separated, quoting any value with spaces.
pub fn format_param_values(param_values: &Vec<String>) -> (r: String)
    ensures
        r@ == spec_format_param_values(param_values@),
{
    let mut out = String::new();
    let mut i: usize = 0;
    while i < param_values.len()
        invariant
            i <= param_values@.len(),
            out@ == spec_format_param_values(param_values@.subrange(0, i as int)),
        decreases param_values@.len() - i,
    {
        if i > 0 {
            out.append(",");
        }
        let v = &param_values[i];
        if str_contains_char(v.as_str(), ' ') {
            out.append("\"");
            out.append(v.as_str());
            out.append("\"");
        } else {
            out.append(v.as_str());
        }
        proof {
            reveal_strlit(",");
            reveal_strlit("\"");
            let prefix = param_values@.subrange(0, i as int);
            let upto = param_values@.subrange(0, i + 1);
            assert(upto.drop_last() =~= prefix);
            assert(upto.last() == param_values@[i as int]);
            assert(out@ =~= spec_format_param_values(upto));
        }
        i = i + 1;
    }
    proof {
        assert(param_values@.subrange(0, param_values@.len() as int) =~= param_values@);
    }
    out
}

/// One rendered `NAME=values` parameter.
pub open spec fn spec_param_str(p: (String, Vec<String>)) -> Seq<char> {
    p.0@ + seq!['='] + spec_format_param_values(p.1@)
}

/// Rendered parameters: empty when there are none, else a leading `;` and
/// the `NAME=values` pairs joined by commas.
pub open spec fn spec_params_str(params: Seq<(String, Vec<String>)>) -> Seq<char> {
    if params.len() == 0 {
        Seq::empty()
    } else {
        seq![';'] + spec_params_join(params)
    }
}

pub open spec fn spec_params_join(params: Seq<(String, Vec<String>)>) -> Seq<char>
    decreases params.len(),
{
    if params.len() == 0 {
        Seq::empty()
    } else if params.len() == 1 {
        spec_param_str(params[0])
    } else {
        spec_params_join(params.drop_last()) + seq![','] + spec_param_str(params.last())
    }
}

/// Render a parameter list as it appears in a feed line.
pub fn params_to_string(params: &Vec<(String, Vec<String>)>) -> (r: String)
    ensures
        r@ == spec_params_str(params@),
{
    if params.len() == 0 {
        return String::new();
    }
    let mut out = String::from_str(";");
    proof {
        reveal_strlit(";");
        assert(out@ =~= seq![';'] + spec_params_join(params@.subrange(0, 0)));
    }
    let mut i: usize = 0;
    while i < params.len()
        invariant
            i <= params@.len(),
            out@ == seq![';'] + spec_params_join(params@.subrange(0, i as int)),
        decreases params@.len() - i,
    {
        if i > 0 {
            out.append(",");
        }
        let p = &params[i];
        out.append(p.0.as_str());
        out.append("=");
        let vals = format_param_values(&p.1);
        out.append(vals.as_str());
        proof {
            reveal_strlit(",");
            reveal_strlit("=");
            let prefix = params@.subrange(0, i as int);
            let upto = params@.subrange(0, i + 1);
            assert(upto.drop_last() =~= prefix);
            assert(upto.last() == params@[i as int]);
            assert(out@ =~= seq![';'] + spec_params_join(upto));
        }
        i = i + 1;
    }
    proof {
        assert(params@.subrange(0, params@.len() as int) =~= params@);
    }
    out
}

/// One property rendered as a feed line: `NAME;PARAMS:VALUE`.
pub open spec fn spec_prop_str(p: Prop) -> Seq<char> {
    p.name@ + (match p.params {
        Some(ps) => spec_params_str(ps@),
        None => Seq::empty(),
    }) + seq![':'] + (match p.value {
        Some(v) => v@,
        None => Seq::empty(),
    })
}

/// Render one property as a feed line.
pub fn prop_to_string(prop: &Prop) -> (r: String)
    ensures
        r@ == spec_prop_str(*prop),
{
    let mut out = String::new();
    out.append(prop.name.as_str());
    match &prop.params {
        Some(ps) => {
            let rendered = params_to_string(ps);
            out.append(rendered.as_str());
        },
        None => (),
    }
    out.append(":");
    match &prop.value {
        Some(v) => out.append(v.as_str()),
        None => (),
    }
    proof {
        reveal_strlit(":");
        assert(out@ =~= spec_prop_str(*prop));
    }
    out
}

/// Properties rendered as feed lines joined by newlines.
pub open spec fn spec_props_str(props: Seq<Prop>) -> Seq<char>
    decreases props.len(),
{
    if props.len() == 0 {
        Seq::empty()
    } else if props.len() == 1 {
        spec_prop_str(props[0])
    } else {
        spec_props_str(props.drop_last()) + seq!['\n'] + spec_prop_str(props.last())
    }
}

/// Render a list of properties as feed lines joined by newlines.
pub fn properties_to_string(properties: &Vec<Prop>) -> (r: String)
    ensures
        r@ == spec_props_str(properties@),
{
    let mut out = String::new();
    let mut i: usize = 0;
    while i < properties.len()
        invariant
            i <= properties@.len(),
            out@ == spec_props_str(properties@.subrange(0, i as int)),
        decreases properties@.len() - i,
    {
        if i > 0 {
            out.append("\n");
        }
        let line = prop_to_string(&properties[i]);
        out.append(line.as_str());
        proof {
            reveal_strlit("\n");
            let prefix = properties@.subrange(0, i as int);
            let upto = properties@.subrange(0, i + 1);
            assert(upto.drop_last() =~= prefix);
            assert(upto.last() == properties@[i as int]);
            assert(out@ =~= spec_props_str(upto));
        }
        i = i + 1;
    }
    proof {
        assert(properties@.subrange(0, properties@.len() as int) =~= properties@);
    }
    out
}

/// Render a whole event block as feed lines.
pub fn ical_event_to_string(event: &RawEvent) -> (r: String)
    ensures
        r@ == spec_props_str(event.properties@),
{
    properties_to_string(&event.properties)
}

/// Whether a property is a date-only value: it carries a `VALUE` parameter
/// whose first value is `DATE`.
pub open spec fn spec_is_ical_date(p: Prop) -> bool {
    match p.params {
        Some(ps) => match spec_find_param(ps@, "VALUE"@) {
            Some(vs) => vs@.len() > 0 && vs@[0]@ == "DATE"@,
            None => false,
        },
        None => false,
    }
}

/// Whether a property is a date-only (all-day) value.
pub fn is_ical_date(prop: &Prop) -> (r: bool)
    ensures
        r == spec_is_ical_date(*prop),
{
    match &prop.params {
        Some(ps) => match find_param(ps, "VALUE") {
            Some(vs) => {
                if vs.len() > 0 {
                    str_eq_str(vs[0].as_str(), "DATE")
                } else {
                    false
                }
            },
            None => false,
        },
        None => false,
    }
}

/// What unescaping feed text yields: each backslash escape collapses to one
/// character, `\n` and `\N` becoming a newline; a trailing lone backslash
/// stays.
pub open spec fn spec_unescape(s: Seq<char>) -> Seq<char>
    decreases s.len(),
{
    if s.len() == 0 {
        Seq::empty()
    } else if s.len() >= 2 && s[0] == '\\' {
        let c = s[1];
        let repl = if c == 'n' || c == 'N' {
            '\n'
        } else {
            c
        };
        seq![repl] + spec_unescape(s.subrange(2, s.len() as int))
    } else {
        seq![s[0]] + spec_unescape(s.subrange(1, s.len() as int))
    }
}

/// Undo feed text escaping.
pub fn unescape_string(s: &str) -> (r: String)
    ensures
        r@ == spec_unescape(s@),
{
    let n = s.unicode_len();
    let mut out = String::new();
    let mut i: usize = 0;
    proof {
        assert(s@.subrange(0, n as int) =~= s@);
    }
    while i < n
        invariant
            i <= n,
            n == s@.len(),
            spec_unescape(s@) == out@ + spec_unescape(s@.subrange(i as int, n as int)),
        decreases n - i,
    {
        let c = s.get_char(i);
        let ghost tail = s@.subrange(i as int, n as int);
        proof {
            assert(tail[0] == s@[i as int]);
        }
        if c == '\\' && i + 1 < n {
            let next = s.get_char(i + 1);
            proof {
                assert(tail[1] == s@[i + 1]);
                assert(tail.subrange(2, tail.len() as int) =~= s@.subrange(i + 2, n as int));
            }
            if next == 'n' || next == 'N' {
                out.append("\n");
                proof {
                    reveal_strlit("\n");
                }
            } else {
                let piece = s.substring_char(i + 1, i + 2);
                out.append(piece);
                proof {
                    assert(piece@ =~= seq![s@[i + 1]]);
                }
            }
            i = i + 2;
        } else {
            proof {
                assert(tail.subrange(1, tail.len() as int) =~= s@.subrange(i + 1, n as int));
            }
            let piece = s.substring_char(i, i + 1);
            out.append(piece);
            proof {
                assert(piece@ =~= seq![s@[i as int]]);
            }
            i = i + 1;
        }
    }
    proof {
        assert(s@.subrange(n as int, n as int) =~= Seq::<char>::empty());
        assert(out@ =~= spec_unescape(s@));
    }
    out
}

} // verus!

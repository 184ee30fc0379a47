//! The command by which a server tells a client of a change of its connection.
//!
//! The command is four AMF0 values: its name, a transaction number, a null value, and an object
//! of what happened. A server may also ask the client to connect again, elsewhere.
use vstd::prelude::*;
use vstd::string::*;
use crate::amf0::decode::value;
use crate::amf0::encode::{emit_null, emit_number, emit_string};
use crate::amf0::laws::{law_read_wire, law_writers_write_wire};
use crate::amf0::{pairs_view, parse_amf0_value, write_null, write_number, write_string, AmfTree, AmfValue};
use crate::double::{of_int, Double};
use crate::error::{Error, Fault};
use crate::script::meta::{emit_meta, law_written_as_tree, lemma_properties_push, properties, tree,
    trees, write_meta_value, Meta, MetaValue};
use crate::text::same_text;
use crate::wire::{lemma_wrote_and, wrote, Emit};

verus! {

/// The name of the command.
pub const COMMAND_NAME: &'static str = "onStatus";

/// The event by which a server asks a client to connect again.
pub const CODE_RECONNECT_REQUEST: &'static str = "NetConnection.Connect.ReconnectRequest";

/// The level of an event that is neither a warning nor an error.
pub const LEVEL_STATUS: &'static str = "status";

/// What happened.
#[derive(Debug, PartialEq, Eq)]
pub struct OnStatusInfo {
    /// The name of the event.
    pub code: String,
    /// How grave it is.
    pub level: String,
    /// The event in words.
    pub description: Option<String>,
    /// Where to connect again.
    pub tc_url: Option<String>,
    /// Whatever else goes with it, in order.
    pub extra: Vec<(String, String)>,
}

/// What an event is, apart from how it is held in memory.
#[verifier::ext_equal]
pub struct Status {
    pub code: Seq<char>,
    pub level: Seq<char>,
    pub description: Option<Seq<char>>,
    pub tc_url: Option<Seq<char>>,
    pub extra: Seq<(Seq<char>, Seq<char>)>,
}

/// The text of an optional string.
pub open spec fn text_view(s: Option<String>) -> Option<Seq<char>> {
    match s {
        Some(t) => Some(t@),
        None => None,
    }
}

/// The texts of a run of pairs.
pub open spec fn pairs_text(s: Seq<(String, String)>) -> Seq<(Seq<char>, Seq<char>)> {
    Seq::new(s.len(), |i: int| (s[i].0@, s[i].1@))
}

impl View for OnStatusInfo {
    type V = Status;

    open spec fn view(&self) -> Status {
        Status {
            code: self.code@,
            level: self.level@,
            description: text_view(self.description),
            tc_url: text_view(self.tc_url),
            extra: pairs_text(self.extra@),
        }
    }
}

/// Nothing happened.
pub open spec fn no_status() -> Status {
    Status {
        code: Seq::empty(),
        level: Seq::empty(),
        description: None,
        tc_url: None,
        extra: Seq::empty(),
    }
}

fn clone_text(s: &Option<String>) -> (r: Option<String>)
    ensures
        text_view(r) == text_view(*s),
{
    match s {
        Some(t) => Some(t.clone()),
        None => None,
    }
}

impl Clone for OnStatusInfo {
    fn clone(&self) -> (r: Self)
        ensures
            r@ == self@,
    {
        let mut extra: Vec<(String, String)> = Vec::new();
        let mut i: usize = 0;
        while i < self.extra.len()
            invariant
                i <= self.extra@.len(),
                extra@.len() == i,
                forall|j: int|
                    0 <= j < i ==> extra@[j].0@ == self.extra@[j].0@ && extra@[j].1@
                        == self.extra@[j].1@,
            decreases self.extra@.len() - i,
        {
            extra.push((self.extra[i].0.clone(), self.extra[i].1.clone()));
            i += 1;
        }
        assert(pairs_text(extra@) =~= pairs_text(self.extra@));
        OnStatusInfo {
            code: self.code.clone(),
            level: self.level.clone(),
            description: clone_text(&self.description),
            tc_url: clone_text(&self.tc_url),
            extra,
        }
    }
}

impl Default for OnStatusInfo {
    fn default() -> (r: Self)
        ensures
            r@ == no_status(),
    {
        let r = OnStatusInfo {
            code: String::new(),
            level: String::new(),
            description: None,
            tc_url: None,
            extra: Vec::new(),
        };
        assert(r@ =~= no_status());
        r
    }
}

impl OnStatusInfo {
    /// An event with its level.
    pub fn new(code: &str, level: &str) -> (r: Self)
        ensures
            r@ == (Status { code: code@, level: level@, ..no_status() }),
    {
        let mut info = OnStatusInfo::default();
        info.code = code.to_string();
        info.level = level.to_string();
        info
    }

    /// Says the event in words.
    #[must_use]
    pub fn description(self, description: &str) -> (r: Self)
        ensures
            r@ == (Status { description: Some(description@), ..self@ }),
    {
        let mut info = self;
        info.description = Some(description.to_string());
        info
    }

    /// Says where to connect again.
    #[must_use]
    pub fn tc_url(self, tc_url: &str) -> (r: Self)
        ensures
            r@ == (Status { tc_url: Some(tc_url@), ..self@ }),
    {
        let mut info = self;
        info.tc_url = Some(tc_url.to_string());
        info
    }

    /// Adds a property.
    #[must_use]
    pub fn property(self, name: &str, value: &str) -> (r: Self)
        ensures
            r@ == (Status { extra: self@.extra.push((name@, value@)), ..self@ }),
    {
        let mut info = self;
        info.extra.push((name.to_string(), value.to_string()));
        assert(pairs_text(info.extra@) =~= pairs_text(self.extra@).push((name@, value@)));
        info
    }

    /// Whether the server asks the client to connect again.
    pub fn is_reconnect_request(&self) -> (r: bool)
        ensures
            r == (self@.code == CODE_RECONNECT_REQUEST@),
    {
        same_text(self.code.as_str(), CODE_RECONNECT_REQUEST)
    }
}

/// The event by which a server asks a client to connect again, elsewhere if `tc_url` says where.
pub fn reconnect_request(tc_url: Option<&str>, description: Option<&str>) -> (r: OnStatusInfo)
    ensures
        r@ == (Status {
            code: CODE_RECONNECT_REQUEST@,
            level: LEVEL_STATUS@,
            description: match description {
                Some(s) => Some(s@),
                None => None,
            },
            tc_url: match tc_url {
                Some(s) => Some(s@),
                None => None,
            },
            extra: Seq::empty(),
        }),
{
    let mut info = OnStatusInfo::new(CODE_RECONNECT_REQUEST, LEVEL_STATUS);
    if let Some(s) = tc_url {
        info.tc_url = Some(s.to_string());
    }
    if let Some(s) = description {
        info.description = Some(s.to_string());
    }
    info
}

// ---- writing --------------------------------------------------------------

/// A string property.
pub open spec fn text_property(name: Seq<char>, s: Seq<char>) -> Seq<(Seq<char>, Meta)> {
    seq![(name, Meta::String(s))]
}

/// A string property, if there is one.
pub open spec fn optional_property(name: Seq<char>, s: Option<Seq<char>>) -> Seq<(Seq<char>, Meta)> {
    match s {
        Some(t) => text_property(name, t),
        None => Seq::empty(),
    }
}

/// Pairs of texts as properties.
pub open spec fn text_properties(s: Seq<(Seq<char>, Seq<char>)>) -> Seq<(Seq<char>, Meta)> {
    Seq::new(s.len(), |i: int| (s[i].0, Meta::String(s[i].1)))
}

/// The properties of an event, in the order in which they are written.
pub open spec fn status_properties(i: Status) -> Seq<(Seq<char>, Meta)> {
    optional_property("tcUrl"@, i.tc_url) + text_property("code"@, i.code) + optional_property(
        "description"@,
        i.description,
    ) + text_property("level"@, i.level) + text_properties(i.extra)
}

/// The command.
pub open spec fn emit_command(i: Status) -> Emit {
    emit_string(COMMAND_NAME@).and(emit_number(of_int(0))).and(emit_null()).and(
        emit_meta(Meta::Object(status_properties(i))),
    )
}

fn push_text(pairs: &mut Vec<(String, MetaValue)>, name: &str, s: &String)
    ensures
        properties(final(pairs)@) == properties(old(pairs)@) + text_property(name@, s@),
{
    let k = name.to_string();
    let v = MetaValue::String(s.clone());
    proof {
        lemma_properties_push(pairs@, k, v);
    }
    pairs.push((k, v));
    assert(properties(pairs@) =~= properties(old(pairs)@) + text_property(name@, s@));
}

fn push_optional(pairs: &mut Vec<(String, MetaValue)>, name: &str, s: &Option<String>)
    ensures
        properties(final(pairs)@) == properties(old(pairs)@) + optional_property(
            name@,
            text_view(*s),
        ),
{
    match s {
        Some(t) => push_text(pairs, name, t),
        None => {
            assert(properties(pairs@) =~= properties(old(pairs)@) + optional_property(
                name@,
                text_view(*s),
            ));
        },
    }
}

fn object_of(info: &OnStatusInfo) -> (r: MetaValue)
    ensures
        r@ == Meta::Object(status_properties(info@)),
{
    let mut pairs: Vec<(String, MetaValue)> = Vec::new();
    push_optional(&mut pairs, "tcUrl", &info.tc_url);
    push_text(&mut pairs, "code", &info.code);
    push_optional(&mut pairs, "description", &info.description);
    push_text(&mut pairs, "level", &info.level);
    let ghost head = properties(pairs@);
    let ghost all = text_properties(info@.extra);
    assert(head + all.take(0) =~= head);
    let mut i: usize = 0;
    while i < info.extra.len()
        invariant
            i <= info.extra@.len(),
            all == text_properties(info@.extra),
            properties(pairs@) == head + all.take(i as int),
        decreases info.extra@.len() - i,
    {
        push_text(&mut pairs, info.extra[i].0.as_str(), &info.extra[i].1);
        assert(head + all.take(i + 1) =~= head + all.take(i as int) + text_property(
            info@.extra[i as int].0,
            info@.extra[i as int].1,
        ));
        i += 1;
    }
    assert(properties(pairs@) =~= status_properties(info@));
    MetaValue::Object(pairs)
}

/// Appends the object of what happened.
///
/// Where a text is too long, the bytes up to it stay in `out`.
pub fn write_info_object(out: &mut Vec<u8>, info: &OnStatusInfo) -> (r: Result<(), Error>)
    ensures
        wrote(old(out)@, final(out)@, r, emit_meta(Meta::Object(status_properties(info@)))),
{
    write_meta_value(out, &object_of(info))
}

/// Appends the command.
///
/// Where a text is too long, the bytes up to it stay in `out`.
pub fn write_on_status_command_body(out: &mut Vec<u8>, info: &OnStatusInfo) -> (r: Result<(), Error>)
    ensures
        wrote(old(out)@, final(out)@, r, emit_command(info@)),
{
    write_string(out, COMMAND_NAME)?;
    let ghost b1 = out@;
    let ghost e1 = emit_string(COMMAND_NAME@);
    let r1 = write_number(out, Double::from_u32(0));
    let ghost e2 = e1.and(emit_number(of_int(0)));
    proof {
        lemma_wrote_and(old(out)@, b1, out@, Ok(()), r1, e1, emit_number(of_int(0)));
    }
    let ghost b2 = out@;
    let r2 = write_null(out);
    let ghost e3 = e2.and(emit_null());
    proof {
        lemma_wrote_and(old(out)@, b2, out@, Ok(()), r2, e2, emit_null());
    }
    let ghost b3 = out@;
    let r3 = write_info_object(out, info);
    proof {
        let object = emit_meta(Meta::Object(status_properties(info@)));
        lemma_wrote_and(old(out)@, b3, out@, Ok(()), r3, e3, object);
    }
    r3
}

/// The command as bytes.
pub fn write_on_status_command(info: &OnStatusInfo) -> (r: Result<Vec<u8>, Error>)
    ensures
        match r {
            Ok(v) => emit_command(info@).fault is None && v@ == emit_command(info@).bytes,
            Err(e) => emit_command(info@).fault matches Some(f) && e == Error::InvalidData(f),
        },
{
    let mut out: Vec<u8> = Vec::new();
    let r = write_on_status_command_body(&mut out, info);
    assert(out@ =~= emit_command(info@).bytes);
    match r {
        Ok(_) => Ok(out),
        Err(e) => Err(e),
    }
}

// ---- reading --------------------------------------------------------------

/// An event to which a string property has been added.
pub open spec fn with_text(i: Status, key: Seq<char>, s: Seq<char>) -> Status {
    if key == "code"@ {
        Status { code: s, ..i }
    } else if key == "level"@ {
        Status { level: s, ..i }
    } else if key == "description"@ {
        Status { description: Some(s), ..i }
    } else if key == "tcUrl"@ {
        Status { tc_url: Some(s), ..i }
    } else {
        Status { extra: i.extra.push((key, s)), ..i }
    }
}

/// An event to which properties have been added, in order. Only strings count.
pub open spec fn with_properties(i: Status, s: Seq<(Seq<char>, AmfTree)>) -> Status
    decreases s.len(),
{
    if s.len() == 0 {
        i
    } else {
        with_properties(
            match s[0].1 {
                AmfTree::String(t) => with_text(i, s[0].0, t),
                _ => i,
            },
            s.drop_first(),
        )
    }
}

/// The event that an object or an associative array stands for.
pub open spec fn status_of(v: AmfTree) -> Result<Status, Fault> {
    match v {
        AmfTree::Object(p) => Ok(with_properties(no_status(), p)),
        AmfTree::EcmaArray(p) => Ok(with_properties(no_status(), p)),
        _ => Err(Fault::OnStatusNotAnObject),
    }
}

/// The command at the start of `data`.
pub open spec fn command(data: Seq<u8>) -> Result<Status, Fault> {
    match value(data, 0) {
        Err(f) => Err(f),
        Ok((name, p)) => if name != AmfTree::String(COMMAND_NAME@) {
            Err(Fault::OnStatusCommandName)
        } else {
            match value(data, p) {
                Err(f) => Err(f),
                Ok((_, q)) => match value(data, q) {
                    Err(f) => Err(f),
                    Ok((_, s)) => match value(data, s) {
                        Err(f) => Err(f),
                        Ok((v, _)) => status_of(v),
                    },
                },
            }
        },
    }
}

fn collect(props: &Vec<(String, AmfValue)>) -> (r: OnStatusInfo)
    ensures
        r@ == with_properties(no_status(), pairs_view(props@)),
{
    let mut info = OnStatusInfo::default();
    let ghost all = pairs_view(props@);
    let mut i: usize = 0;
    assert(all.skip(0) =~= all);
    while i < props.len()
        invariant
            i <= props@.len(),
            all == pairs_view(props@),
            with_properties(no_status(), all) == with_properties(info@, all.skip(i as int)),
        decreases props@.len() - i,
    {
        let ghost before = info@;
        let ghost rest = all.skip(i as int);
        assert(rest[0] == (props@[i as int].0@, props@[i as int].1@));
        assert(rest.drop_first() =~= all.skip(i + 1));
        if let AmfValue::String(s) = &props[i].1 {
            let key = props[i].0.as_str();
            let t = s.clone();
            if same_text(key, "code") {
                info.code = t;
            } else if same_text(key, "level") {
                info.level = t;
            } else if same_text(key, "description") {
                info.description = Some(t);
            } else if same_text(key, "tcUrl") {
                info.tc_url = Some(t);
            } else {
                let ghost old_extra = info.extra@;
                info.extra.push((props[i].0.clone(), t));
                assert(pairs_text(info.extra@) =~= pairs_text(old_extra).push((key@, s@)));
            }
            assert(info@ =~= with_text(before, rest[0].0, s@));
        }
        i += 1;
    }
    assert(all.skip(i as int) =~= Seq::empty());
    info
}

/// Reads the command at the start of `data`. The transaction number and the value behind it may
/// be anything. A code or level that is missing is empty; properties that are not strings are
/// passed over.
pub fn parse_on_status_command(data: &[u8]) -> (r: Result<OnStatusInfo, Error>)
    ensures
        match (r, command(data@)) {
            (Ok(i), Ok(x)) => i@ == x,
            (Err(e), Err(f)) => e == Error::InvalidData(f),
            _ => false,
        },
{
    let (name, p) = parse_amf0_value(data, 0)?;
    let named = match &name {
        AmfValue::String(s) => same_text(s.as_str(), COMMAND_NAME),
        _ => false,
    };
    if !named {
        return Err(Error::InvalidData(Fault::OnStatusCommandName));
    }
    let (_, q) = parse_amf0_value(data, p)?;
    let (_, s) = parse_amf0_value(data, q)?;
    let (info, _) = parse_amf0_value(data, s)?;
    match &info {
        AmfValue::Object(props) => Ok(collect(props)),
        AmfValue::EcmaArray(props) => Ok(collect(props)),
        _ => Err(Error::InvalidData(Fault::OnStatusNotAnObject)),
    }
}

// ---- reading what was written ---------------------------------------------

/// A name that has a place of its own in the event.
pub open spec fn reserved(key: Seq<char>) -> bool {
    key == "code"@ || key == "level"@ || key == "description"@ || key == "tcUrl"@
}

proof fn lemma_with_properties_add(i: Status, a: Seq<(Seq<char>, AmfTree)>, b: Seq<(Seq<char>, AmfTree)>)
    ensures
        with_properties(i, a + b) == with_properties(with_properties(i, a), b),
    decreases a.len(),
{
    if a.len() == 0 {
        assert(a + b =~= b);
    } else {
        assert((a + b).drop_first() =~= a.drop_first() + b);
        let j = match a[0].1 {
            AmfTree::String(t) => with_text(i, a[0].0, t),
            _ => i,
        };
        lemma_with_properties_add(j, a.drop_first(), b);
    }
}

proof fn lemma_with_one(i: Status, key: Seq<char>, s: Seq<char>)
    ensures
        with_properties(i, trees(text_property(key, s))) == with_text(i, key, s),
{
    let p = trees(text_property(key, s));
    assert(p[0] == (key, AmfTree::String(s)));
    assert(p.drop_first() =~= Seq::empty());
    assert(with_properties(with_text(i, key, s), p.drop_first()) == with_text(i, key, s));
}

proof fn lemma_with_optional(i: Status, key: Seq<char>, s: Option<Seq<char>>)
    ensures
        with_properties(i, trees(optional_property(key, s))) == (match s {
            Some(t) => with_text(i, key, t),
            None => i,
        }),
{
    match s {
        Some(t) => lemma_with_one(i, key, t),
        None => {
            assert(trees(optional_property(key, s)) =~= Seq::empty());
        },
    }
}

proof fn lemma_with_extra(i: Status, s: Seq<(Seq<char>, Seq<char>)>)
    requires
        forall|j: int| 0 <= j < s.len() ==> !reserved((#[trigger] s[j]).0),
    ensures
        with_properties(i, trees(text_properties(s))) == (Status { extra: i.extra + s, ..i }),
    decreases s.len(),
{
    let p = trees(text_properties(s));
    if s.len() == 0 {
        assert(i.extra + s =~= i.extra);
        assert(p =~= Seq::empty());
    } else {
        let rest = s.drop_first();
        assert(p[0] == (s[0].0, AmfTree::String(s[0].1)));
        assert(p.drop_first() =~= trees(text_properties(rest)));
        assert forall|j: int| 0 <= j < rest.len() implies !reserved((#[trigger] rest[j]).0) by {
            assert(rest[j] == s[j + 1]);
        }
        let next = with_text(i, s[0].0, s[0].1);
        assert(!reserved(s[0].0));
        lemma_with_extra(next, rest);
        assert(i.extra.push(s[0]) + rest =~= i.extra + s);
    }
}

proof fn lemma_trees_add(a: Seq<(Seq<char>, Meta)>, b: Seq<(Seq<char>, Meta)>)
    ensures
        trees(a + b) == trees(a) + trees(b),
{
    assert(trees(a + b) =~= trees(a) + trees(b));
}

proof fn lemma_status_back(i: Status)
    requires
        forall|j: int| 0 <= j < i.extra.len() ==> !reserved((#[trigger] i.extra[j]).0),
    ensures
        status_of(tree(Meta::Object(status_properties(i)))) == Ok::<Status, Fault>(i),
{
    reveal_strlit("code");
    reveal_strlit("level");
    reveal_strlit("description");
    reveal_strlit("tcUrl");
    let p1 = optional_property("tcUrl"@, i.tc_url);
    let p2 = text_property("code"@, i.code);
    let p3 = optional_property("description"@, i.description);
    let p4 = text_property("level"@, i.level);
    let p5 = text_properties(i.extra);
    lemma_trees_add(p1 + p2 + p3 + p4, p5);
    lemma_trees_add(p1 + p2 + p3, p4);
    lemma_trees_add(p1 + p2, p3);
    lemma_trees_add(p1, p2);
    let s0 = no_status();
    lemma_with_properties_add(s0, trees(p1 + p2 + p3 + p4), trees(p5));
    lemma_with_properties_add(s0, trees(p1 + p2 + p3), trees(p4));
    lemma_with_properties_add(s0, trees(p1 + p2), trees(p3));
    lemma_with_properties_add(s0, trees(p1), trees(p2));
    let s1 = with_properties(s0, trees(p1));
    lemma_with_optional(s0, "tcUrl"@, i.tc_url);
    let s2 = with_properties(s1, trees(p2));
    lemma_with_one(s1, "code"@, i.code);
    let s3 = with_properties(s2, trees(p3));
    lemma_with_optional(s2, "description"@, i.description);
    let s4 = with_properties(s3, trees(p4));
    lemma_with_one(s3, "level"@, i.level);
    lemma_with_extra(s4, i.extra);
    assert("tcUrl"@.len() == 5 && "code"@.len() == 4 && "description"@.len() == 11 && "level"@.len()
        == 5);
    assert("tcUrl"@[0] != "level"@[0]);
    assert(s4 =~= Status { extra: Seq::empty(), ..i });
    assert(Seq::<(Seq<char>, Seq<char>)>::empty() + i.extra =~= i.extra);
}

/// Reading a command that was written gives back the event, unless a property that was added to
/// it has the name of one of its fields: such a property would be read as the field.
#[verifier::spinoff_prover]
#[verifier::rlimit(50)]
pub proof fn law_read_write(i: Status, behind: Seq<u8>)
    requires
        emit_command(i).fault is None,
        forall|j: int| 0 <= j < i.extra.len() ==> !reserved((#[trigger] i.extra[j]).0),
    ensures
        command(emit_command(i).bytes + behind) == Ok::<Status, Fault>(i),
{
    let object = Meta::Object(status_properties(i));
    let a = emit_string(COMMAND_NAME@).bytes;
    let b = emit_number(of_int(0)).bytes;
    let c = emit_null().bytes;
    let d = emit_meta(object).bytes;
    let data = emit_command(i).bytes + behind;
    law_writers_write_wire(of_int(0), false, COMMAND_NAME@, 0);
    law_written_as_tree(object);
    lemma_status_back(i);
    assert(data.subrange(0, a.len() as int) =~= a);
    assert(data.subrange(a.len() as int, (a.len() + b.len()) as int) =~= b);
    assert(data.subrange((a.len() + b.len()) as int, (a.len() + b.len() + c.len()) as int) =~= c);
    assert(data.subrange(
        (a.len() + b.len() + c.len()) as int,
        (a.len() + b.len() + c.len() + d.len()) as int,
    ) =~= d);
    law_read_wire(data, 0, AmfTree::String(COMMAND_NAME@));
    law_read_wire(data, a.len() as int, AmfTree::Number(of_int(0)));
    law_read_wire(data, (a.len() + b.len()) as int, AmfTree::Null);
    law_read_wire(data, (a.len() + b.len() + c.len()) as int, tree(object));
}

} // verus!

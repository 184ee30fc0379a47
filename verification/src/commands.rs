//! The commands of a live session, told by the values in them.
use vstd::prelude::*;
use crate::amf0::decode::value;
use crate::amf0::encode::{emit_null, emit_number, emit_string};
use crate::amf0::AmfTree;
use crate::connect::{connect_of, connect_properties, map_of, masks, strings, with_mask, Connect,
    Scalar};
use crate::double::{of_int, Double};
use crate::error::Fault;
use crate::on_status::{status_of, status_properties, Status};
use crate::script::meta::{emit_meta, Meta};

verus! {

/// A number as flags: without its fraction, where it is from 0 to 4294967295, and else 0.
pub open spec fn bits_of(n: Double) -> int {
    if n.finite() && 0 <= n.rank() <= of_int(4294967295).rank() {
        n.trunc() as int
    } else {
        0
    }
}

// ---- connect ----------------------------------------------------------------

proof fn lemma_last_is_last(c: Connect, s: Seq<(Seq<char>, AmfTree)>, key: Seq<char>, v: AmfTree)
    ensures
        crate::connect::with_properties(c, s.push((key, v))) == crate::connect::with_property(
            crate::connect::with_properties(c, s),
            key,
            v,
        ),
    decreases s.len(),
{
    let t = s.push((key, v));
    if s.len() == 0 {
        assert(t.drop_first() =~= Seq::empty());
        assert(crate::connect::with_properties(
            crate::connect::with_property(c, key, v),
            t.drop_first(),
        ) == crate::connect::with_property(c, key, v));
    } else {
        assert(t.drop_first() =~= s.drop_first().push((key, v)));
        lemma_last_is_last(
            crate::connect::with_property(c, s[0].0, s[0].1),
            s.drop_first(),
            key,
            v,
        );
    }
}

/// The list of codecs keeps the strings of an array, in order.
pub proof fn law_strings_are_kept(s: Seq<AmfTree>, v: AmfTree)
    ensures
        strings(Seq::empty()).len() == 0,
        strings(s.push(v)) == (match v {
            AmfTree::String(t) => strings(s).push(t),
            _ => strings(s),
        }),
    decreases s.len(),
{
    let t = s.push(v);
    if s.len() == 0 {
        assert(t.drop_first() =~= Seq::empty());
        assert(strings(t.drop_first()).len() == 0);
        assert(strings(t) =~= (match v {
            AmfTree::String(x) => strings(s).push(x),
            _ => strings(s),
        }));
    } else {
        assert(t.drop_first() =~= s.drop_first().push(v));
        law_strings_are_kept(s.drop_first(), v);
        assert(strings(t) =~= (match v {
            AmfTree::String(x) => strings(s).push(x),
            _ => strings(s),
        }));
    }
}

/// A map of codecs keeps the numbers of an object, in order, each as flags under its name.
pub proof fn law_masks_are_kept(s: Seq<(Seq<char>, AmfTree)>, key: Seq<char>, v: AmfTree)
    ensures
        masks(Seq::empty()).len() == 0,
        masks(s.push((key, v))) == (match v {
            AmfTree::Number(n) => masks(s).push((key, bits_of(n) as u32)),
            _ => masks(s),
        }),
        map_of(AmfTree::Object(s)) == masks(s),
        map_of(AmfTree::EcmaArray(s)) == masks(s),
        !(v is Object || v is EcmaArray) ==> map_of(v).len() == 0,
    decreases s.len(),
{
    let t = s.push((key, v));
    if s.len() == 0 {
        assert(t.drop_first() =~= Seq::empty());
        assert(masks(t.drop_first()).len() == 0);
    } else {
        assert(t.drop_first() =~= s.drop_first().push((key, v)));
        law_masks_are_kept(s.drop_first(), key, v);
    }
    assert(masks(t) =~= (match v {
        AmfTree::Number(n) => masks(s).push((key, bits_of(n) as u32)),
        _ => masks(s),
    }));
}

/// What one more property adds to a connect command. `fourCcList` is the list of codecs where it is an
/// array; the two maps are those of its objects; `capsEx` is the capabilities where it is a number; a
/// string, a number or a truth value under another name is kept under it. What comes later replaces
/// what came before, and any other value says nothing.
pub proof fn law_connect_by_property(s: Seq<(Seq<char>, AmfTree)>, key: Seq<char>, v: AmfTree)
    ensures
        connect_of(AmfTree::EcmaArray(s)) == connect_of(AmfTree::Object(s)),
        connect_of(AmfTree::Object(s)) matches Ok(c) && (connect_of(
            AmfTree::Object(s.push((key, v))),
        ) matches Ok(d) && {
            let listed = key == "fourCcList"@;
            let video = key == "videoFourCcInfoMap"@;
            let audio = key == "audioFourCcInfoMap"@;
            let caps = key == "capsEx"@;
            &&& d.four_cc_list == (match v {
                AmfTree::StrictArray(a) => if listed {
                    Some(strings(a))
                } else {
                    c.four_cc_list
                },
                _ => c.four_cc_list,
            })
            &&& d.video == (if video {
                Some(map_of(v))
            } else {
                c.video
            })
            &&& d.audio == (if audio {
                Some(map_of(v))
            } else {
                c.audio
            })
            &&& d.caps_ex == (match v {
                AmfTree::Number(n) => if caps {
                    Some(bits_of(n) as u32)
                } else {
                    c.caps_ex
                },
                _ => c.caps_ex,
            })
            &&& listed || video || audio || caps ==> d.extra == c.extra
            &&& !(listed || video || audio || caps) ==> d.extra == (match v {
                AmfTree::String(t) => c.extra.push((key, Scalar::Str(t))),
                AmfTree::Number(n) => c.extra.push((key, Scalar::Num(n))),
                AmfTree::Boolean(b) => c.extra.push((key, Scalar::Bool(b))),
                _ => c.extra,
            })
        }),
{
    lemma_last_is_last(crate::connect::no_connect(), s, key, v);
    lemma_connect_names();
}

proof fn lemma_connect_names()
    ensures
        "fourCcList"@ != "videoFourCcInfoMap"@,
        "fourCcList"@ != "audioFourCcInfoMap"@,
        "fourCcList"@ != "capsEx"@,
        "videoFourCcInfoMap"@ != "audioFourCcInfoMap"@,
        "videoFourCcInfoMap"@ != "capsEx"@,
        "audioFourCcInfoMap"@ != "capsEx"@,
{
    reveal_strlit("fourCcList");
    reveal_strlit("videoFourCcInfoMap");
    reveal_strlit("audioFourCcInfoMap");
    reveal_strlit("capsEx");
    assert("fourCcList"@.len() == 10);
    assert("videoFourCcInfoMap"@.len() == 18);
    assert("audioFourCcInfoMap"@.len() == 18);
    assert("capsEx"@.len() == 6);
    assert("videoFourCcInfoMap"@[0] == 'v' && "audioFourCcInfoMap"@[0] == 'a');
}

/// A connect command without properties says nothing, and one without an object is refused.
pub proof fn law_connect_needs_an_object(v: AmfTree)
    ensures
        connect_of(AmfTree::Object(Seq::empty())) matches Ok(c) && c.four_cc_list is None
            && c.video is None && c.audio is None && c.caps_ex is None && c.extra.len() == 0,
        !(v is Object || v is EcmaArray) ==> connect_of(v) == Err::<Connect, Fault>(
            Fault::ConnectNotAnObject,
        ),
{
}

/// A codec that is named to a map stands last in it.
pub proof fn law_codecs_are_named(m: Option<Seq<(Seq<char>, u32)>>, fourcc: Seq<char>, mask: u32)
    ensures
        with_mask(m, fourcc, mask) == Some(
            (if m is Some {
                m->0
            } else {
                Seq::empty()
            }).push((fourcc, mask)),
        ),
{
    assert(Seq::<(Seq<char>, u32)>::empty().push((fourcc, mask)) =~= seq![(fourcc, mask)]);
}

/// A connect command is its name, a number that does not matter, and an object.
pub proof fn law_connect_is_read(data: Seq<u8>)
    ensures
        match value(data, 0) {
            Err(f) => crate::connect::command(data) == Err::<Connect, Fault>(f),
            Ok((name, p)) => if name == AmfTree::String("connect"@) {
                match value(data, p) {
                    Err(f) => crate::connect::command(data) == Err::<Connect, Fault>(f),
                    Ok((_, q)) => match value(data, q) {
                        Err(f) => crate::connect::command(data) == Err::<Connect, Fault>(f),
                        Ok((v, r)) => crate::connect::command(data) == connect_of(v)
                            && crate::connect::command_object(data, q) == (match connect_of(v) {
                            Err(f) => Err(f),
                            Ok(c) => Ok((c, r)),
                        }),
                    },
                }
            } else {
                crate::connect::command(data) == Err::<Connect, Fault>(Fault::ConnectCommandName)
            },
        },
{
}

/// What is written for a connect command: its name, the number, and an object with what else is to be
/// said first, and then the list, the maps and the capabilities that there are.
pub proof fn law_connect_is_written(id: Double, c: Connect)
    ensures
        crate::connect::emit_command(id, c) == emit_string("connect"@).and(emit_number(id)).and(
            emit_meta(Meta::Object(connect_properties(c))),
        ),
        ({
            let p = connect_properties(c);
            let n = c.extra.len() as int;
            let a = n + if c.four_cc_list is Some {
                1int
            } else {
                0
            };
            let b = a + if c.video is Some {
                1int
            } else {
                0
            };
            let d = b + if c.audio is Some {
                1int
            } else {
                0
            };
            let e = d + if c.caps_ex is Some {
                1int
            } else {
                0
            };
            &&& p.len() == e
            &&& forall|i: int|
                0 <= i < n ==> #[trigger] p[i] == (
                    c.extra[i].0,
                    match c.extra[i].1 {
                        Scalar::Str(t) => Meta::String(t),
                        Scalar::Num(x) => Meta::Number(x),
                        Scalar::Bool(t) => Meta::Boolean(t),
                    },
                )
            &&& c.four_cc_list matches Some(l) ==> p[n] == (
                "fourCcList"@,
                Meta::StrictArray(Seq::new(l.len(), |i: int| Meta::String(l[i]))),
            )
            &&& c.video matches Some(m) ==> p[a] == (
                "videoFourCcInfoMap"@,
                Meta::Object(
                    Seq::new(m.len(), |i: int| (m[i].0, Meta::Number(of_int(m[i].1 as nat)))),
                ),
            )
            &&& c.audio matches Some(m) ==> p[b] == (
                "audioFourCcInfoMap"@,
                Meta::Object(
                    Seq::new(m.len(), |i: int| (m[i].0, Meta::Number(of_int(m[i].1 as nat)))),
                ),
            )
            &&& c.caps_ex matches Some(x) ==> p[d] == ("capsEx"@, Meta::Number(of_int(x as nat)))
        }),
{
    if let Some(l) = c.four_cc_list {
        assert(crate::connect::text_metas(l) =~= Seq::new(l.len(), |i: int| Meta::String(l[i])));
    }
    if let Some(m) = c.video {
        assert(crate::connect::mask_properties(m) =~= Seq::new(
            m.len(),
            |i: int| (m[i].0, Meta::Number(of_int(m[i].1 as nat))),
        ));
    }
    if let Some(m) = c.audio {
        assert(crate::connect::mask_properties(m) =~= Seq::new(
            m.len(),
            |i: int| (m[i].0, Meta::Number(of_int(m[i].1 as nat))),
        ));
    }
}

// ---- status -----------------------------------------------------------------

proof fn lemma_last_text_is_last(
    c: Status,
    s: Seq<(Seq<char>, AmfTree)>,
    key: Seq<char>,
    v: AmfTree,
)
    ensures
        crate::on_status::with_properties(c, s.push((key, v))) == (match v {
            AmfTree::String(t) => crate::on_status::with_text(
                crate::on_status::with_properties(c, s),
                key,
                t,
            ),
            _ => crate::on_status::with_properties(c, s),
        }),
    decreases s.len(),
{
    let t = s.push((key, v));
    if s.len() == 0 {
        assert(t.drop_first() =~= Seq::empty());
        let d = match v {
            AmfTree::String(x) => crate::on_status::with_text(c, key, x),
            _ => c,
        };
        assert(crate::on_status::with_properties(d, t.drop_first()) == d);
    } else {
        assert(t.drop_first() =~= s.drop_first().push((key, v)));
        let d = match s[0].1 {
            AmfTree::String(x) => crate::on_status::with_text(c, s[0].0, x),
            _ => c,
        };
        lemma_last_text_is_last(d, s.drop_first(), key, v);
    }
}

/// What one more property adds to a status: a string is the code, the level, the description or the
/// address where it is named so, and is kept under any other name. Other values say nothing.
pub proof fn law_status_by_property(s: Seq<(Seq<char>, AmfTree)>, key: Seq<char>, v: AmfTree)
    ensures
        status_of(AmfTree::EcmaArray(s)) == status_of(AmfTree::Object(s)),
        status_of(AmfTree::Object(s)) matches Ok(c) && (status_of(
            AmfTree::Object(s.push((key, v))),
        ) matches Ok(d) && {
            &&& v !is String ==> d == c
            &&& v matches AmfTree::String(t) ==> {
                &&& d.code == (if key == "code"@ {
                    t
                } else {
                    c.code
                })
                &&& d.level == (if key == "level"@ {
                    t
                } else {
                    c.level
                })
                &&& d.description == (if key == "description"@ {
                    Some(t)
                } else {
                    c.description
                })
                &&& d.tc_url == (if key == "tcUrl"@ {
                    Some(t)
                } else {
                    c.tc_url
                })
                &&& d.extra == (if key == "code"@ || key == "level"@ || key == "description"@ || key
                    == "tcUrl"@ {
                    c.extra
                } else {
                    c.extra.push((key, t))
                })
            }
        }),
{
    lemma_last_text_is_last(crate::on_status::no_status(), s, key, v);
    reveal_strlit("code");
    reveal_strlit("level");
    reveal_strlit("description");
    reveal_strlit("tcUrl");
    assert("code"@.len() == 4 && "level"@.len() == 5 && "tcUrl"@.len() == 5 && "description"@.len()
        == 11);
    assert("level"@[0] == 'l' && "tcUrl"@[0] == 't');
}

/// A status without properties is empty, and one without an object is refused.
pub proof fn law_status_needs_an_object(v: AmfTree)
    ensures
        status_of(AmfTree::Object(Seq::empty())) matches Ok(c) && c.code.len() == 0 && c.level.len()
            == 0 && c.description is None && c.tc_url is None && c.extra.len() == 0,
        !(v is Object || v is EcmaArray) ==> status_of(v) == Err::<Status, Fault>(
            Fault::OnStatusNotAnObject,
        ),
{
}

/// A status is its name, two values that do not matter, and an object.
pub proof fn law_status_is_read(data: Seq<u8>)
    ensures
        match value(data, 0) {
            Err(f) => crate::on_status::command(data) == Err::<Status, Fault>(f),
            Ok((name, p)) => if name == AmfTree::String("onStatus"@) {
                match value(data, p) {
                    Err(f) => crate::on_status::command(data) == Err::<Status, Fault>(f),
                    Ok((_, q)) => match value(data, q) {
                        Err(f) => crate::on_status::command(data) == Err::<Status, Fault>(f),
                        Ok((_, r)) => match value(data, r) {
                            Err(f) => crate::on_status::command(data) == Err::<Status, Fault>(f),
                            Ok((v, _)) => crate::on_status::command(data) == status_of(v),
                        },
                    },
                }
            } else {
                crate::on_status::command(data) == Err::<Status, Fault>(Fault::OnStatusCommandName)
            },
        },
{
}

/// What is written for a status: its name, zero, null, and an object with the address, the code, the
/// description and the level, as far as there are any, and what else is to be said.
pub proof fn law_status_is_written(c: Status)
    ensures
        crate::on_status::emit_command(c) == emit_string("onStatus"@).and(
            emit_number(Double { bits: 0 }),
        ).and(emit_null()).and(emit_meta(Meta::Object(status_properties(c)))),
        ({
            let p = status_properties(c);
            let a = if c.tc_url is Some {
                1int
            } else {
                0
            };
            let b = a + 1 + if c.description is Some {
                1int
            } else {
                0
            };
            &&& p.len() == b + 1 + c.extra.len()
            &&& c.tc_url matches Some(t) ==> p[0] == ("tcUrl"@, Meta::String(t))
            &&& p[a] == ("code"@, Meta::String(c.code))
            &&& c.description matches Some(t) ==> p[a + 1] == ("description"@, Meta::String(t))
            &&& p[b] == ("level"@, Meta::String(c.level))
            &&& forall|k: int|
                b < k < p.len() ==> #[trigger] p[k] == (
                    c.extra[k - b - 1].0,
                    Meta::String(c.extra[k - b - 1].1),
                )
        }),
{
    assert(of_int(0) == Double { bits: 0 });
}

} // verus!

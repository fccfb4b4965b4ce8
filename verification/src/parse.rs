//! Reading a scenario definition document into the model types. The
//! definition format is this engine's own external interface, so its reading
//! is specified here field by field — the object keys in their authored
//! order, with JSON whitespace between tokens — and the executable reader is
//! proved to return exactly what the specification reads. Any missing,
//! misplaced, or mistyped field rejects the whole document; what the fields
//! mean is then judged by the validated constructor in `scenario`.
use crate::save::{
    expect_char, expect_char_exec, expect_token, expect_token_exec, read_number, read_number_exec,
    read_quoted, read_quoted_exec, skip_ws, ws_end,
};
use crate::scenario::{
    nodes_model, refs_ok, Choice, ChoiceV, Ending, LoadError, Meta, MetaV, Node, NodeV, Scenario,
    ScenarioData,
};
use crate::strutil::str_to_chars;
use vstd::prelude::*;

verus! {

/// Read a string value that may also be null.
pub open spec fn read_opt_string(s: Seq<char>) -> Option<(Option<Seq<char>>, Seq<char>)> {
    match expect_token(s, "null"@) {
        Some(rest) => Some((None, rest)),
        None => match read_quoted(skip_ws(s)) {
            Some((t, rest)) => Some((Some(t), rest)),
            None => None,
        },
    }
}

/// Read one choice object: its label and its target identifier.
pub open spec fn read_choice(s: Seq<char>) -> Option<(ChoiceV, Seq<char>)> {
    match expect_char(s, '{') {
        None => None,
        Some(s1) => match expect_token(s1, "\"label\""@) {
            None => None,
            Some(s2) => match expect_char(s2, ':') {
                None => None,
                Some(s3) => match read_quoted(skip_ws(s3)) {
                    None => None,
                    Some((label, s4)) => match expect_char(s4, ',') {
                        None => None,
                        Some(s5) => match expect_token(s5, "\"to\""@) {
                            None => None,
                            Some(s6) => match expect_char(s6, ':') {
                                None => None,
                                Some(s7) => match read_quoted(skip_ws(s7)) {
                                    None => None,
                                    Some((to, s8)) => match expect_char(s8, '}') {
                                        None => None,
                                        Some(s9) => Some((ChoiceV { label, to }, s9)),
                                    },
                                },
                            },
                        },
                    },
                },
            },
        },
    }
}

/// Read one or more comma-separated choice objects up to the closing
/// bracket. `fuel` bounds the number of separators; any bound at or above
/// their count reads them all.
pub open spec fn read_choice_items(s: Seq<char>, acc: Seq<ChoiceV>, fuel: nat) -> Option<
    (Seq<ChoiceV>, Seq<char>),
>
    decreases fuel,
{
    match read_choice(s) {
        None => None,
        Some((c, rest)) => {
            let t = skip_ws(rest);
            if t.len() > 0 && t[0] == ',' {
                if fuel == 0 {
                    None
                } else {
                    read_choice_items(t.skip(1), acc.push(c), (fuel - 1) as nat)
                }
            } else if t.len() > 0 && t[0] == ']' {
                Some((acc.push(c), t.skip(1)))
            } else {
                None
            }
        },
    }
}

/// Read a choice array after its opening bracket: empty, or comma-separated
/// choice objects, up to the closing bracket.
pub open spec fn read_choice_array(s: Seq<char>) -> Option<(Seq<ChoiceV>, Seq<char>)> {
    let t = skip_ws(s);
    if t.len() > 0 && t[0] == ']' {
        Some((Seq::empty(), t.skip(1)))
    } else {
        read_choice_items(s, Seq::empty(), s.len())
    }
}

/// Read an ending value: null, or an object bearing a tag.
pub open spec fn read_ending_value(s: Seq<char>) -> Option<(Option<Seq<char>>, Seq<char>)> {
    match expect_token(s, "null"@) {
        Some(rest) => Some((None, rest)),
        None => match expect_char(s, '{') {
            None => None,
            Some(s1) => match expect_token(s1, "\"tag\""@) {
                None => None,
                Some(s2) => match expect_char(s2, ':') {
                    None => None,
                    Some(s3) => match read_quoted(skip_ws(s3)) {
                        None => None,
                        Some((tag, s4)) => match expect_char(s4, '}') {
                            None => None,
                            Some(s5) => Some((Some(tag), s5)),
                        },
                    },
                },
            },
        },
    }
}

/// Read the rest of a node after its "ending" key: the colon, the value,
/// and the node's closing brace.
pub open spec fn read_ending_tail(s: Seq<char>) -> Option<(Option<Seq<char>>, Seq<char>)> {
    match expect_char(s, ':') {
        None => None,
        Some(s1) => match read_ending_value(s1) {
            None => None,
            Some((e, s2)) => match expect_char(s2, '}') {
                None => None,
                Some(s3) => Some((e, s3)),
            },
        },
    }
}

/// Read the rest of a node after its choice array: the closing brace, or
/// the optional ending field and then the brace.
pub open spec fn read_node_after_choices(
    id: Seq<char>,
    text: Seq<char>,
    bg: Option<Seq<char>>,
    choices: Seq<ChoiceV>,
    s: Seq<char>,
) -> Option<(NodeV, Seq<char>)> {
    match expect_char(s, '}') {
        Some(rest) => Some((NodeV { id, text, bg, choices, ending: None }, rest)),
        None => match expect_char(s, ',') {
            None => None,
            Some(s1) => match expect_token(s1, "\"ending\""@) {
                None => None,
                Some(s2) => match read_ending_tail(s2) {
                    None => None,
                    Some((ending, rest)) => Some((NodeV { id, text, bg, choices, ending }, rest)),
                },
            },
        },
    }
}

/// Read the rest of a node after its "choices" key: the colon, the array,
/// and whatever fields follow.
pub open spec fn read_choices_tail(
    id: Seq<char>,
    text: Seq<char>,
    bg: Option<Seq<char>>,
    s: Seq<char>,
) -> Option<(NodeV, Seq<char>)> {
    match expect_char(s, ':') {
        None => None,
        Some(s1) => match expect_char(s1, '[') {
            None => None,
            Some(s2) => match read_choice_array(s2) {
                None => None,
                Some((choices, rest)) => read_node_after_choices(id, text, bg, choices, rest),
            },
        },
    }
}

/// Read the rest of a node after its background field: the closing brace,
/// or the remaining optional fields in their order.
pub open spec fn read_node_after_bg(
    id: Seq<char>,
    text: Seq<char>,
    bg: Option<Seq<char>>,
    s: Seq<char>,
) -> Option<(NodeV, Seq<char>)> {
    match expect_char(s, '}') {
        Some(rest) => Some((NodeV { id, text, bg, choices: Seq::empty(), ending: None }, rest)),
        None => match expect_char(s, ',') {
            None => None,
            Some(s1) => match expect_token(s1, "\"choices\""@) {
                Some(s2) => read_choices_tail(id, text, bg, s2),
                None => match expect_token(s1, "\"ending\""@) {
                    None => None,
                    Some(s2) => match read_ending_tail(s2) {
                        None => None,
                        Some((ending, rest)) => Some(
                            (NodeV { id, text, bg, choices: Seq::empty(), ending }, rest),
                        ),
                    },
                },
            },
        },
    }
}

/// Read one node object: its required identifier and text, then its
/// optional background, choices, and ending, in their authored order.
pub open spec fn read_node(s: Seq<char>) -> Option<(NodeV, Seq<char>)> {
    match expect_char(s, '{') {
        None => None,
        Some(s1) => match expect_token(s1, "\"id\""@) {
            None => None,
            Some(s2) => match expect_char(s2, ':') {
                None => None,
                Some(s3) => match read_quoted(skip_ws(s3)) {
                    None => None,
                    Some((id, s4)) => match expect_char(s4, ',') {
                        None => None,
                        Some(s5) => match expect_token(s5, "\"text\""@) {
                            None => None,
                            Some(s6) => match expect_char(s6, ':') {
                                None => None,
                                Some(s7) => match read_quoted(skip_ws(s7)) {
                                    None => None,
                                    Some((text, s8)) => read_node_rest(id, text, s8),
                                },
                            },
                        },
                    },
                },
            },
        },
    }
}

/// Read the rest of a node after its text: the closing brace, or its first
/// optional field and onwards.
pub open spec fn read_node_rest(id: Seq<char>, text: Seq<char>, s: Seq<char>) -> Option<
    (NodeV, Seq<char>),
> {
    match expect_char(s, '}') {
        Some(rest) => Some(
            (NodeV { id, text, bg: None, choices: Seq::empty(), ending: None }, rest),
        ),
        None => match expect_char(s, ',') {
            None => None,
            Some(s1) => match expect_token(s1, "\"bg\""@) {
                Some(s2) => match expect_char(s2, ':') {
                    None => None,
                    Some(s3) => match read_opt_string(s3) {
                        None => None,
                        Some((bg, rest)) => read_node_after_bg(id, text, bg, rest),
                    },
                },
                None => match expect_token(s1, "\"choices\""@) {
                    Some(s2) => read_choices_tail(id, text, None, s2),
                    None => match expect_token(s1, "\"ending\""@) {
                        None => None,
                        Some(s2) => match read_ending_tail(s2) {
                            None => None,
                            Some((ending, rest)) => Some(
                                (NodeV { id, text, bg: None, choices: Seq::empty(), ending }, rest),
                            ),
                        },
                    },
                },
            },
        },
    }
}

/// Read one or more comma-separated node objects up to the closing bracket.
pub open spec fn read_node_items(s: Seq<char>, acc: Seq<NodeV>, fuel: nat) -> Option<
    (Seq<NodeV>, Seq<char>),
>
    decreases fuel,
{
    match read_node(s) {
        None => None,
        Some((n, rest)) => {
            let t = skip_ws(rest);
            if t.len() > 0 && t[0] == ',' {
                if fuel == 0 {
                    None
                } else {
                    read_node_items(t.skip(1), acc.push(n), (fuel - 1) as nat)
                }
            } else if t.len() > 0 && t[0] == ']' {
                Some((acc.push(n), t.skip(1)))
            } else {
                None
            }
        },
    }
}

/// Read the node array after its opening bracket: empty, or comma-separated
/// node objects, up to the closing bracket.
pub open spec fn read_node_array(s: Seq<char>) -> Option<(Seq<NodeV>, Seq<char>)> {
    let t = skip_ws(s);
    if t.len() > 0 && t[0] == ']' {
        Some((Seq::empty(), t.skip(1)))
    } else {
        read_node_items(s, Seq::empty(), s.len())
    }
}

/// Read the metadata object: its five required fields in their authored
/// order. A depth beyond the machine's word is no metadata.
pub open spec fn read_meta(s: Seq<char>) -> Option<(MetaV, Seq<char>)> {
    match expect_char(s, '{') {
        None => None,
        Some(s1) => match expect_token(s1, "\"title\""@) {
            None => None,
            Some(s2) => match expect_char(s2, ':') {
                None => None,
                Some(s3) => match read_quoted(skip_ws(s3)) {
                    None => None,
                    Some((title, s4)) => match expect_char(s4, ',') {
                        None => None,
                        Some(s5) => match expect_token(s5, "\"depth\""@) {
                            None => None,
                            Some(s6) => match expect_char(s6, ':') {
                                None => None,
                                Some(s7) => match read_number(s7) {
                                    None => None,
                                    Some((depth, s8)) => {
                                        if depth > usize::MAX as nat {
                                            None
                                        } else {
                                            read_meta_rest(title, depth, s8)
                                        }
                                    },
                                },
                            },
                        },
                    },
                },
            },
        },
    }
}

/// Read the remaining metadata fields: the background, ambience, and font
/// references, and the object's closing brace.
pub open spec fn read_meta_rest(title: Seq<char>, depth: nat, s: Seq<char>) -> Option<
    (MetaV, Seq<char>),
> {
    match expect_char(s, ',') {
        None => None,
        Some(s1) => match expect_token(s1, "\"default_background\""@) {
            None => None,
            Some(s2) => match expect_char(s2, ':') {
                None => None,
                Some(s3) => match read_quoted(skip_ws(s3)) {
                    None => None,
                    Some((default_background, s4)) => match expect_char(s4, ',') {
                        None => None,
                        Some(s5) => match expect_token(s5, "\"rain_bgm\""@) {
                            None => None,
                            Some(s6) => match expect_char(s6, ':') {
                                None => None,
                                Some(s7) => match read_quoted(skip_ws(s7)) {
                                    None => None,
                                    Some((rain_bgm, s8)) => match expect_char(s8, ',') {
                                        None => None,
                                        Some(s9) => match expect_token(s9, "\"font\""@) {
                                            None => None,
                                            Some(s10) => match expect_char(s10, ':') {
                                                None => None,
                                                Some(s11) => match read_quoted(skip_ws(s11)) {
                                                    None => None,
                                                    Some((font, s12)) => match expect_char(
                                                        s12,
                                                        '}',
                                                    ) {
                                                        None => None,
                                                        Some(rest) => Some(
                                                            (
                                                                MetaV {
                                                                    title,
                                                                    depth: depth as int,
                                                                    default_background,
                                                                    rain_bgm,
                                                                    font,
                                                                },
                                                                rest,
                                                            ),
                                                        ),
                                                    },
                                                },
                                            },
                                        },
                                    },
                                },
                            },
                        },
                    },
                },
            },
        },
    }
}

/// Read a whole scenario document: its metadata, then its node list, to the
/// end of the text.
pub open spec fn read_scenario(s: Seq<char>) -> Option<(MetaV, Seq<NodeV>)> {
    match expect_char(s, '{') {
        None => None,
        Some(s1) => match expect_token(s1, "\"meta\""@) {
            None => None,
            Some(s2) => match expect_char(s2, ':') {
                None => None,
                Some(s3) => match read_meta(s3) {
                    None => None,
                    Some((meta, s4)) => match expect_char(s4, ',') {
                        None => None,
                        Some(s5) => match expect_token(s5, "\"nodes\""@) {
                            None => None,
                            Some(s6) => match expect_char(s6, ':') {
                                None => None,
                                Some(s7) => match expect_char(s7, '[') {
                                    None => None,
                                    Some(s8) => match read_node_array(s8) {
                                        None => None,
                                        Some((nodes, s9)) => match expect_char(s9, '}') {
                                            None => None,
                                            Some(s10) => {
                                                if skip_ws(s10).len() == 0 {
                                                    Some((meta, nodes))
                                                } else {
                                                    None
                                                }
                                            },
                                        },
                                    },
                                },
                            },
                        },
                    },
                },
            },
        },
    }
}

/// The model of an optional string field.
pub open spec fn opt_str_view(o: Option<String>) -> Option<Seq<char>> {
    match o {
        Some(b) => Some(b@),
        None => None,
    }
}

/// The model of an optional ending field.
pub open spec fn opt_ending_view(o: Option<Ending>) -> Option<Seq<char>> {
    match o {
        Some(e) => Some(e.tag@),
        None => None,
    }
}

/// The model of a choice list.
pub open spec fn choices_model(v: Seq<Choice>) -> Seq<ChoiceV> {
    v.map_values(|c: Choice| c@)
}

/// Read a string value that may also be null.
fn read_opt_string_exec(s: &Vec<char>, i: usize) -> (r: Option<(Option<String>, usize)>)
    requires
        i <= s.len(),
    ensures
        match r {
            Some((v, j)) => i <= j <= s@.len() && read_opt_string(s@.skip(i as int)) == Some(
                (opt_str_view(v), s@.skip(j as int)),
            ),
            None => read_opt_string(s@.skip(i as int)) is None,
        },
{
    if let Some(p) = expect_token_exec(s, i, "null") {
        return Some((None, p));
    }
    let k = ws_end(s, i);
    match read_quoted_exec(s, k) {
        Some((t, j)) => Some((Some(t), j)),
        None => None,
    }
}

/// Read one choice object.
fn read_choice_exec(s: &Vec<char>, i: usize) -> (r: Option<(Choice, usize)>)
    requires
        i <= s.len(),
    ensures
        match r {
            Some((c, j)) => i < j <= s@.len() && read_choice(s@.skip(i as int)) == Some(
                (c@, s@.skip(j as int)),
            ),
            None => read_choice(s@.skip(i as int)) is None,
        },
{
    let p1 = match expect_char_exec(s, i, '{') {
        Some(p) => p,
        None => {
            return None;
        },
    };
    let p2 = match expect_token_exec(s, p1, "\"label\"") {
        Some(p) => p,
        None => {
            return None;
        },
    };
    let p3 = match expect_char_exec(s, p2, ':') {
        Some(p) => p,
        None => {
            return None;
        },
    };
    let k1 = ws_end(s, p3);
    let (label, p4) = match read_quoted_exec(s, k1) {
        Some(x) => x,
        None => {
            return None;
        },
    };
    let p5 = match expect_char_exec(s, p4, ',') {
        Some(p) => p,
        None => {
            return None;
        },
    };
    let p6 = match expect_token_exec(s, p5, "\"to\"") {
        Some(p) => p,
        None => {
            return None;
        },
    };
    let p7 = match expect_char_exec(s, p6, ':') {
        Some(p) => p,
        None => {
            return None;
        },
    };
    let k2 = ws_end(s, p7);
    let (to, p8) = match read_quoted_exec(s, k2) {
        Some(x) => x,
        None => {
            return None;
        },
    };
    let p9 = match expect_char_exec(s, p8, '}') {
        Some(p) => p,
        None => {
            return None;
        },
    };
    Some((Choice { label, to }, p9))
}

/// Read a choice array after its opening bracket.
fn read_choice_array_exec(s: &Vec<char>, i: usize) -> (r: Option<(Vec<Choice>, usize)>)
    requires
        i <= s.len(),
    ensures
        match r {
            Some((cs, j)) => i <= j <= s@.len() && read_choice_array(s@.skip(i as int)) == Some(
                (choices_model(cs@), s@.skip(j as int)),
            ),
            None => read_choice_array(s@.skip(i as int)) is None,
        },
{
    let ghost fuel0: nat = s@.skip(i as int).len();
    let k = ws_end(s, i);
    if k < s.len() && s[k] == ']' {
        proof {
            assert(s@.skip(k as int)[0] == s@[k as int]);
            assert(s@.skip(k as int).skip(1) =~= s@.skip(k as int + 1));
        }
        let empty: Vec<Choice> = Vec::new();
        proof {
            assert(choices_model(empty@) =~= Seq::<ChoiceV>::empty());
        }
        return Some((empty, k + 1));
    }
    proof {
        if k < s.len() {
            assert(s@.skip(k as int)[0] == s@[k as int]);
        }
    }
    let mut items: Vec<Choice> = Vec::new();
    let mut j = i;
    let ghost mut fuel: nat = fuel0;
    proof {
        assert(choices_model(items@) =~= Seq::<ChoiceV>::empty());
    }
    loop
        invariant
            i <= j <= s@.len(),
            fuel0 == s@.skip(i as int).len(),
            fuel >= s@.len() - j,
            read_choice_items(s@.skip(i as int), Seq::empty(), fuel0) == read_choice_items(
                s@.skip(j as int),
                choices_model(items@),
                fuel,
            ),
            read_choice_array(s@.skip(i as int)) == read_choice_items(
                s@.skip(i as int),
                Seq::empty(),
                fuel0,
            ),
        decreases s@.len() - j,
    {
        let (item, jq) = match read_choice_exec(s, j) {
            Some(p) => p,
            None => {
                return None;
            },
        };
        let m = ws_end(s, jq);
        if m < s.len() && s[m] == ',' {
            proof {
                assert(s@.skip(m as int)[0] == s@[m as int]);
                assert(s@.skip(m as int).skip(1) =~= s@.skip(m as int + 1));
                assert(fuel >= 1);
            }
            let ghost old_items = choices_model(items@);
            items.push(item);
            proof {
                assert(choices_model(items@) =~= old_items.push(item@));
                fuel = (fuel - 1) as nat;
            }
            j = m + 1;
        } else if m < s.len() && s[m] == ']' {
            proof {
                assert(s@.skip(m as int)[0] == s@[m as int]);
                assert(s@.skip(m as int).skip(1) =~= s@.skip(m as int + 1));
            }
            let ghost old_items = choices_model(items@);
            items.push(item);
            proof {
                assert(choices_model(items@) =~= old_items.push(item@));
            }
            return Some((items, m + 1));
        } else {
            proof {
                if m < s.len() {
                    assert(s@.skip(m as int)[0] == s@[m as int]);
                }
            }
            return None;
        }
    }
}

/// Read an ending value: null, or an object bearing a tag.
fn read_ending_value_exec(s: &Vec<char>, i: usize) -> (r: Option<(Option<Ending>, usize)>)
    requires
        i <= s.len(),
    ensures
        match r {
            Some((e, j)) => i <= j <= s@.len() && read_ending_value(s@.skip(i as int)) == Some(
                (opt_ending_view(e), s@.skip(j as int)),
            ),
            None => read_ending_value(s@.skip(i as int)) is None,
        },
{
    if let Some(p) = expect_token_exec(s, i, "null") {
        return Some((None, p));
    }
    let p1 = match expect_char_exec(s, i, '{') {
        Some(p) => p,
        None => {
            return None;
        },
    };
    let p2 = match expect_token_exec(s, p1, "\"tag\"") {
        Some(p) => p,
        None => {
            return None;
        },
    };
    let p3 = match expect_char_exec(s, p2, ':') {
        Some(p) => p,
        None => {
            return None;
        },
    };
    let k = ws_end(s, p3);
    let (tag, p4) = match read_quoted_exec(s, k) {
        Some(x) => x,
        None => {
            return None;
        },
    };
    let p5 = match expect_char_exec(s, p4, '}') {
        Some(p) => p,
        None => {
            return None;
        },
    };
    Some((Some(Ending { tag }), p5))
}

/// Read the rest of a node after its "ending" key.
fn read_ending_tail_exec(s: &Vec<char>, i: usize) -> (r: Option<(Option<Ending>, usize)>)
    requires
        i <= s.len(),
    ensures
        match r {
            Some((e, j)) => i <= j <= s@.len() && read_ending_tail(s@.skip(i as int)) == Some(
                (opt_ending_view(e), s@.skip(j as int)),
            ),
            None => read_ending_tail(s@.skip(i as int)) is None,
        },
{
    let p1 = match expect_char_exec(s, i, ':') {
        Some(p) => p,
        None => {
            return None;
        },
    };
    let (e, p2) = match read_ending_value_exec(s, p1) {
        Some(x) => x,
        None => {
            return None;
        },
    };
    let p3 = match expect_char_exec(s, p2, '}') {
        Some(p) => p,
        None => {
            return None;
        },
    };
    Some((e, p3))
}

/// Read the rest of a node after its choice array.
fn read_node_after_choices_exec(
    id: String,
    text: String,
    bg: Option<String>,
    choices: Vec<Choice>,
    s: &Vec<char>,
    i: usize,
) -> (r: Option<(Node, usize)>)
    requires
        i <= s.len(),
    ensures
        match r {
            Some((n, j)) => i <= j <= s@.len() && read_node_after_choices(
                id@,
                text@,
                opt_str_view(bg),
                choices_model(choices@),
                s@.skip(i as int),
            ) == Some((n@, s@.skip(j as int))),
            None => read_node_after_choices(
                id@,
                text@,
                opt_str_view(bg),
                choices_model(choices@),
                s@.skip(i as int),
            ) is None,
        },
{
    if let Some(p) = expect_char_exec(s, i, '}') {
        return Some((Node { id, text, bg, choices, ending: None }, p));
    }
    let p1 = match expect_char_exec(s, i, ',') {
        Some(p) => p,
        None => {
            return None;
        },
    };
    let p2 = match expect_token_exec(s, p1, "\"ending\"") {
        Some(p) => p,
        None => {
            return None;
        },
    };
    let (ending, p3) = match read_ending_tail_exec(s, p2) {
        Some(x) => x,
        None => {
            return None;
        },
    };
    Some((Node { id, text, bg, choices, ending }, p3))
}

/// Read the rest of a node after its "choices" key.
fn read_choices_tail_exec(
    id: String,
    text: String,
    bg: Option<String>,
    s: &Vec<char>,
    i: usize,
) -> (r: Option<(Node, usize)>)
    requires
        i <= s.len(),
    ensures
        match r {
            Some((n, j)) => i <= j <= s@.len() && read_choices_tail(
                id@,
                text@,
                opt_str_view(bg),
                s@.skip(i as int),
            ) == Some((n@, s@.skip(j as int))),
            None => read_choices_tail(id@, text@, opt_str_view(bg), s@.skip(i as int)) is None,
        },
{
    let p1 = match expect_char_exec(s, i, ':') {
        Some(p) => p,
        None => {
            return None;
        },
    };
    let p2 = match expect_char_exec(s, p1, '[') {
        Some(p) => p,
        None => {
            return None;
        },
    };
    let (choices, p3) = match read_choice_array_exec(s, p2) {
        Some(x) => x,
        None => {
            return None;
        },
    };
    read_node_after_choices_exec(id, text, bg, choices, s, p3)
}

/// Read the rest of a node after its background field.
fn read_node_after_bg_exec(
    id: String,
    text: String,
    bg: Option<String>,
    s: &Vec<char>,
    i: usize,
) -> (r: Option<(Node, usize)>)
    requires
        i <= s.len(),
    ensures
        match r {
            Some((n, j)) => i <= j <= s@.len() && read_node_after_bg(
                id@,
                text@,
                opt_str_view(bg),
                s@.skip(i as int),
            ) == Some((n@, s@.skip(j as int))),
            None => read_node_after_bg(id@, text@, opt_str_view(bg), s@.skip(i as int)) is None,
        },
{
    if let Some(p) = expect_char_exec(s, i, '}') {
        let n = Node { id, text, bg, choices: Vec::new(), ending: None };
        proof {
            assert(n@.choices =~= Seq::<ChoiceV>::empty());
        }
        return Some((n, p));
    }
    let p1 = match expect_char_exec(s, i, ',') {
        Some(p) => p,
        None => {
            return None;
        },
    };
    if let Some(p2) = expect_token_exec(s, p1, "\"choices\"") {
        return read_choices_tail_exec(id, text, bg, s, p2);
    }
    let p2 = match expect_token_exec(s, p1, "\"ending\"") {
        Some(p) => p,
        None => {
            return None;
        },
    };
    let (ending, p3) = match read_ending_tail_exec(s, p2) {
        Some(x) => x,
        None => {
            return None;
        },
    };
    let n = Node { id, text, bg, choices: Vec::new(), ending };
    proof {
        assert(n@.choices =~= Seq::<ChoiceV>::empty());
    }
    Some((n, p3))
}

/// Read the rest of a node after its text.
fn read_node_rest_exec(id: String, text: String, s: &Vec<char>, i: usize) -> (r: Option<
    (Node, usize),
>)
    requires
        i <= s.len(),
    ensures
        match r {
            Some((n, j)) => i <= j <= s@.len() && read_node_rest(id@, text@, s@.skip(i as int))
                == Some((n@, s@.skip(j as int))),
            None => read_node_rest(id@, text@, s@.skip(i as int)) is None,
        },
{
    if let Some(p) = expect_char_exec(s, i, '}') {
        let n = Node { id, text, bg: None, choices: Vec::new(), ending: None };
        proof {
            assert(n@.choices =~= Seq::<ChoiceV>::empty());
        }
        return Some((n, p));
    }
    let p1 = match expect_char_exec(s, i, ',') {
        Some(p) => p,
        None => {
            return None;
        },
    };
    if let Some(p2) = expect_token_exec(s, p1, "\"bg\"") {
        let p3 = match expect_char_exec(s, p2, ':') {
            Some(p) => p,
            None => {
                return None;
            },
        };
        let (bg, p4) = match read_opt_string_exec(s, p3) {
            Some(x) => x,
            None => {
                return None;
            },
        };
        return read_node_after_bg_exec(id, text, bg, s, p4);
    }
    if let Some(p2) = expect_token_exec(s, p1, "\"choices\"") {
        return read_choices_tail_exec(id, text, None, s, p2);
    }
    let p2 = match expect_token_exec(s, p1, "\"ending\"") {
        Some(p) => p,
        None => {
            return None;
        },
    };
    let (ending, p3) = match read_ending_tail_exec(s, p2) {
        Some(x) => x,
        None => {
            return None;
        },
    };
    let n = Node { id, text, bg: None, choices: Vec::new(), ending };
    proof {
        assert(n@.choices =~= Seq::<ChoiceV>::empty());
    }
    Some((n, p3))
}

/// Read one node object.
fn read_node_exec(s: &Vec<char>, i: usize) -> (r: Option<(Node, usize)>)
    requires
        i <= s.len(),
    ensures
        match r {
            Some((n, j)) => i < j <= s@.len() && read_node(s@.skip(i as int)) == Some(
                (n@, s@.skip(j as int)),
            ),
            None => read_node(s@.skip(i as int)) is None,
        },
{
    let p1 = match expect_char_exec(s, i, '{') {
        Some(p) => p,
        None => {
            return None;
        },
    };
    let p2 = match expect_token_exec(s, p1, "\"id\"") {
        Some(p) => p,
        None => {
            return None;
        },
    };
    let p3 = match expect_char_exec(s, p2, ':') {
        Some(p) => p,
        None => {
            return None;
        },
    };
    let k1 = ws_end(s, p3);
    let (id, p4) = match read_quoted_exec(s, k1) {
        Some(x) => x,
        None => {
            return None;
        },
    };
    let p5 = match expect_char_exec(s, p4, ',') {
        Some(p) => p,
        None => {
            return None;
        },
    };
    let p6 = match expect_token_exec(s, p5, "\"text\"") {
        Some(p) => p,
        None => {
            return None;
        },
    };
    let p7 = match expect_char_exec(s, p6, ':') {
        Some(p) => p,
        None => {
            return None;
        },
    };
    let k2 = ws_end(s, p7);
    let (text, p8) = match read_quoted_exec(s, k2) {
        Some(x) => x,
        None => {
            return None;
        },
    };
    read_node_rest_exec(id, text, s, p8)
}

/// Read the node array after its opening bracket.
fn read_node_array_exec(s: &Vec<char>, i: usize) -> (r: Option<(Vec<Node>, usize)>)
    requires
        i <= s.len(),
    ensures
        match r {
            Some((ns, j)) => i <= j <= s@.len() && read_node_array(s@.skip(i as int)) == Some(
                (nodes_model(ns@), s@.skip(j as int)),
            ),
            None => read_node_array(s@.skip(i as int)) is None,
        },
{
    let ghost fuel0: nat = s@.skip(i as int).len();
    let k = ws_end(s, i);
    if k < s.len() && s[k] == ']' {
        proof {
            assert(s@.skip(k as int)[0] == s@[k as int]);
            assert(s@.skip(k as int).skip(1) =~= s@.skip(k as int + 1));
        }
        let empty: Vec<Node> = Vec::new();
        proof {
            assert(nodes_model(empty@) =~= Seq::<NodeV>::empty());
        }
        return Some((empty, k + 1));
    }
    proof {
        if k < s.len() {
            assert(s@.skip(k as int)[0] == s@[k as int]);
        }
    }
    let mut items: Vec<Node> = Vec::new();
    let mut j = i;
    let ghost mut fuel: nat = fuel0;
    proof {
        assert(nodes_model(items@) =~= Seq::<NodeV>::empty());
    }
    loop
        invariant
            i <= j <= s@.len(),
            fuel0 == s@.skip(i as int).len(),
            fuel >= s@.len() - j,
            read_node_items(s@.skip(i as int), Seq::empty(), fuel0) == read_node_items(
                s@.skip(j as int),
                nodes_model(items@),
                fuel,
            ),
            read_node_array(s@.skip(i as int)) == read_node_items(
                s@.skip(i as int),
                Seq::empty(),
                fuel0,
            ),
        decreases s@.len() - j,
    {
        let (item, jq) = match read_node_exec(s, j) {
            Some(p) => p,
            None => {
                return None;
            },
        };
        let m = ws_end(s, jq);
        if m < s.len() && s[m] == ',' {
            proof {
                assert(s@.skip(m as int)[0] == s@[m as int]);
                assert(s@.skip(m as int).skip(1) =~= s@.skip(m as int + 1));
                assert(fuel >= 1);
            }
            let ghost old_items = nodes_model(items@);
            items.push(item);
            proof {
                assert(nodes_model(items@) =~= old_items.push(item@));
                fuel = (fuel - 1) as nat;
            }
            j = m + 1;
        } else if m < s.len() && s[m] == ']' {
            proof {
                assert(s@.skip(m as int)[0] == s@[m as int]);
                assert(s@.skip(m as int).skip(1) =~= s@.skip(m as int + 1));
            }
            let ghost old_items = nodes_model(items@);
            items.push(item);
            proof {
                assert(nodes_model(items@) =~= old_items.push(item@));
            }
            return Some((items, m + 1));
        } else {
            proof {
                if m < s.len() {
                    assert(s@.skip(m as int)[0] == s@[m as int]);
                }
            }
            return None;
        }
    }
}

/// Read the metadata object.
fn read_meta_exec(s: &Vec<char>, i: usize) -> (r: Option<(Meta, usize)>)
    requires
        i <= s.len(),
    ensures
        match r {
            Some((m, j)) => i <= j <= s@.len() && read_meta(s@.skip(i as int)) == Some(
                (m@, s@.skip(j as int)),
            ),
            None => read_meta(s@.skip(i as int)) is None,
        },
{
    let p1 = match expect_char_exec(s, i, '{') {
        Some(p) => p,
        None => {
            return None;
        },
    };
    let p2 = match expect_token_exec(s, p1, "\"title\"") {
        Some(p) => p,
        None => {
            return None;
        },
    };
    let p3 = match expect_char_exec(s, p2, ':') {
        Some(p) => p,
        None => {
            return None;
        },
    };
    let k1 = ws_end(s, p3);
    let (title, p4) = match read_quoted_exec(s, k1) {
        Some(x) => x,
        None => {
            return None;
        },
    };
    let p5 = match expect_char_exec(s, p4, ',') {
        Some(p) => p,
        None => {
            return None;
        },
    };
    let p6 = match expect_token_exec(s, p5, "\"depth\"") {
        Some(p) => p,
        None => {
            return None;
        },
    };
    let p7 = match expect_char_exec(s, p6, ':') {
        Some(p) => p,
        None => {
            return None;
        },
    };
    let (dopt, p8) = match read_number_exec(s, p7) {
        Some(x) => x,
        None => {
            return None;
        },
    };
    let depth = match dopt {
        Some(d) => d,
        None => {
            return None;
        },
    };
    let p9 = match expect_char_exec(s, p8, ',') {
        Some(p) => p,
        None => {
            return None;
        },
    };
    let p10 = match expect_token_exec(s, p9, "\"default_background\"") {
        Some(p) => p,
        None => {
            return None;
        },
    };
    let p11 = match expect_char_exec(s, p10, ':') {
        Some(p) => p,
        None => {
            return None;
        },
    };
    let k2 = ws_end(s, p11);
    let (default_background, p12) = match read_quoted_exec(s, k2) {
        Some(x) => x,
        None => {
            return None;
        },
    };
    let p13 = match expect_char_exec(s, p12, ',') {
        Some(p) => p,
        None => {
            return None;
        },
    };
    let p14 = match expect_token_exec(s, p13, "\"rain_bgm\"") {
        Some(p) => p,
        None => {
            return None;
        },
    };
    let p15 = match expect_char_exec(s, p14, ':') {
        Some(p) => p,
        None => {
            return None;
        },
    };
    let k3 = ws_end(s, p15);
    let (rain_bgm, p16) = match read_quoted_exec(s, k3) {
        Some(x) => x,
        None => {
            return None;
        },
    };
    let p17 = match expect_char_exec(s, p16, ',') {
        Some(p) => p,
        None => {
            return None;
        },
    };
    let p18 = match expect_token_exec(s, p17, "\"font\"") {
        Some(p) => p,
        None => {
            return None;
        },
    };
    let p19 = match expect_char_exec(s, p18, ':') {
        Some(p) => p,
        None => {
            return None;
        },
    };
    let k4 = ws_end(s, p19);
    let (font, p20) = match read_quoted_exec(s, k4) {
        Some(x) => x,
        None => {
            return None;
        },
    };
    let p21 = match expect_char_exec(s, p20, '}') {
        Some(p) => p,
        None => {
            return None;
        },
    };
    Some((Meta { title, depth, default_background, rain_bgm, font }, p21))
}

/// Read a whole scenario document from its text.
fn read_scenario_exec(text: &str) -> (r: Option<Scenario>)
    ensures
        match r {
            Some(sc) => read_scenario(text@) == Some((sc.meta@, nodes_model(sc.nodes@))),
            None => read_scenario(text@) is None,
        },
{
    let s = str_to_chars(text);
    proof {
        assert(s@.skip(0) =~= text@);
    }
    let p1 = match expect_char_exec(&s, 0, '{') {
        Some(p) => p,
        None => {
            return None;
        },
    };
    let p2 = match expect_token_exec(&s, p1, "\"meta\"") {
        Some(p) => p,
        None => {
            return None;
        },
    };
    let p3 = match expect_char_exec(&s, p2, ':') {
        Some(p) => p,
        None => {
            return None;
        },
    };
    let (meta, p4) = match read_meta_exec(&s, p3) {
        Some(x) => x,
        None => {
            return None;
        },
    };
    let p5 = match expect_char_exec(&s, p4, ',') {
        Some(p) => p,
        None => {
            return None;
        },
    };
    let p6 = match expect_token_exec(&s, p5, "\"nodes\"") {
        Some(p) => p,
        None => {
            return None;
        },
    };
    let p7 = match expect_char_exec(&s, p6, ':') {
        Some(p) => p,
        None => {
            return None;
        },
    };
    let p8 = match expect_char_exec(&s, p7, '[') {
        Some(p) => p,
        None => {
            return None;
        },
    };
    let (nodes, p9) = match read_node_array_exec(&s, p8) {
        Some(x) => x,
        None => {
            return None;
        },
    };
    let p10 = match expect_char_exec(&s, p9, '}') {
        Some(p) => p,
        None => {
            return None;
        },
    };
    let p11 = ws_end(&s, p10);
    if p11 != s.len() {
        return None;
    }
    Some(Scenario { meta, nodes })
}

impl ScenarioData {
    /// Load a scenario from its definition text: read the document as the
    /// definition format specifies, then validate referential integrity. A
    /// store is returned exactly when the whole document reads and every
    /// choice target resolves; the store holds exactly what was read.
    pub fn load_from_json(json_content: &str) -> (r: Result<ScenarioData, LoadError>)
        ensures
            match read_scenario(json_content@) {
                None => r matches Err(e) && e is Parse,
                Some((meta, nodes)) => {
                    &&& r is Ok <==> refs_ok(nodes)
                    &&& r matches Ok(sd) ==> sd.scenario.meta@ == meta && nodes_model(
                        sd.scenario.nodes@,
                    ) == nodes
                    &&& r matches Err(e) ==> e matches LoadError::InvalidReference { .. }
                },
            },
    {
        let scenario = match read_scenario_exec(json_content) {
            Some(sc) => sc,
            None => {
                return Err(LoadError::Parse);
            },
        };
        ScenarioData::from_scenario(scenario)
    }
}

} // verus!

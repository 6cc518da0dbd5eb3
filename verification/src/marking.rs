//! Marking commands read from JSON text by a small hand-written scanner:
//! `{"type": "crosswalk", "params": {"key": "value", ...}}` and
//! `{"commands": [{...}, {...}]}`.

use vstd::prelude::*;

use crate::crosswalk::line_views;
use crate::dxf::{DxfLine, DxfText};
use crate::fields::{decimal, push_decimal};
use crate::number::{is_float_literal, NumText};
use crate::params::{ParamMap, pairs_map};
use crate::text::{
    trim_start, find, find_from_exec, find_exec, find_char, skip_ws, slice_chars, string_of,
    chars_of, lemma_find_bounds, lemma_trim_start_len,
};

verus! {

/// `key` in the quote character `q`.
pub open spec fn quoted(key: Seq<char>, q: char) -> Seq<char> {
    seq![q] + key + seq![q]
}

/// For one key pattern: the text between the quotes of the string value
/// after `pattern :`, if the first occurrence of `pattern` is followed by a
/// colon and a quoted string.
pub open spec fn value_after(json: Seq<char>, pattern: Seq<char>) -> Option<Seq<char>> {
    match find(json, pattern) {
        None => None,
        Some(k) => {
            let a = trim_start(json.skip(k + pattern.len()));
            if a.len() > 0 && a[0] == ':' {
                let b = trim_start(a.skip(1));
                if b.len() > 0 && b[0] == '"' {
                    match find(b.skip(1), seq!['"']) {
                        Some(e) => Some(b.subrange(1, 1 + e)),
                        None => None,
                    }
                } else {
                    None
                }
            } else {
                None
            }
        },
    }
}

/// The string value of `key`: tried with the key in double quotes, then
/// in single quotes.
pub open spec fn json_value(json: Seq<char>, key: Seq<char>) -> Option<Seq<char>> {
    match value_after(json, quoted(key, '"')) {
        Some(v) => Some(v),
        None => value_after(json, quoted(key, '\'')),
    }
}

/// Scanning `s` from `i` at nesting `depth`: the index of the `close` that
/// brings the nesting back to zero.
pub open spec fn close_from(s: Seq<char>, i: int, depth: int, open: char, close: char) -> Option<
    int,
>
    decreases s.len() - i,
{
    if i < 0 || i >= s.len() {
        None
    } else if s[i] == open {
        close_from(s, i + 1, depth + 1, open, close)
    } else if s[i] == close {
        if depth - 1 == 0 {
            Some(i)
        } else {
            close_from(s, i + 1, depth - 1, open, close)
        }
    } else {
        close_from(s, i + 1, depth, open, close)
    }
}

/// The inside of the bracketed value (`open` ... `close`) after `"key":`.
pub open spec fn block_after(json: Seq<char>, key: Seq<char>, open: char, close: char) -> Option<
    Seq<char>,
> {
    let pattern = quoted(key, '"');
    match find(json, pattern) {
        None => None,
        Some(k) => {
            let a = trim_start(json.skip(k + pattern.len()));
            if a.len() > 0 && a[0] == ':' {
                let rest = trim_start(a.skip(1));
                if rest.len() > 0 && rest[0] == open {
                    match close_from(rest, 0, 0, open, close) {
                        Some(i) => Some(rest.subrange(1, i)),
                        None => None,
                    }
                } else {
                    None
                }
            } else {
                None
            }
        },
    }
}

/// The `"key" : "value"` pairs of a parameter object's inside, in order;
/// reading stops at the first pair that is not of that form.
pub open spec fn param_pairs(rem: Seq<char>) -> Seq<(Seq<char>, Seq<char>)>
    decreases rem.len(),
{
    match find(rem, seq!['"']) {
        None => Seq::empty(),
        Some(ks) => {
            let a = rem.skip(ks + 1);
            match find(a, seq!['"']) {
                None => Seq::empty(),
                Some(ke) => {
                    let key = a.take(ke);
                    let b = a.skip(ke + 1);
                    match find(b, seq![':']) {
                        None => Seq::empty(),
                        Some(cp) => {
                            let c = trim_start(b.skip(cp + 1));
                            if c.len() > 0 && c[0] == '"' {
                                let vc = c.skip(1);
                                match find(vc, seq!['"']) {
                                    Some(ve) => {
                                        proof {
                                            lemma_find_bounds(rem, seq!['"']);
                                            lemma_find_bounds(a, seq!['"']);
                                            lemma_find_bounds(b, seq![':']);
                                            lemma_trim_start_len(b.skip(cp + 1));
                                            lemma_find_bounds(vc, seq!['"']);
                                        }
                                        seq![(key, vc.take(ve))] + param_pairs(vc.skip(ve + 1))
                                    },
                                    None => Seq::empty(),
                                }
                            } else {
                                Seq::empty()
                            }
                        },
                    }
                },
            }
        },
    }
}

pub open spec fn word_type() -> Seq<char> {
    seq!['t', 'y', 'p', 'e']
}

pub open spec fn word_params() -> Seq<char> {
    seq!['p', 'a', 'r', 'a', 'm', 's']
}

pub open spec fn word_commands() -> Seq<char> {
    seq!['c', 'o', 'm', 'm', 'a', 'n', 'd', 's']
}

pub open spec fn opt_chars(o: Option<Vec<char>>) -> Option<Seq<char>> {
    match o {
        Some(v) => Some(v@),
        None => None,
    }
}

pub open spec fn opt_index(o: Option<usize>) -> Option<int> {
    match o {
        Some(k) => Some(k as int),
        None => None,
    }
}

fn quoted_exec(key: &[char], q: char) -> (r: Vec<char>)
    ensures
        r@ == quoted(key@, q),
{
    let mut r: Vec<char> = Vec::new();
    r.push(q);
    let mut i: usize = 0;
    while i < key.len()
        invariant
            i <= key@.len(),
            r@ == seq![q] + key@.take(i as int),
        decreases key@.len() - i,
    {
        r.push(key[i]);
        assert(key@.take(i + 1) =~= key@.take(i as int).push(key@[i as int]));
        assert(r@ =~= seq![q] + key@.take(i + 1));
        i += 1;
    }
    r.push(q);
    assert(key@.take(i as int) =~= key@);
    assert(r@ =~= quoted(key@, q));
    r
}

/// The value after one key pattern (see `value_after`).
fn value_after_exec(json: &[char], pattern: &[char]) -> (r: Option<Vec<char>>)
    ensures
        opt_chars(r) == value_after(json@, pattern@),
{
    let k = match find_exec(json, pattern) {
        Some(k) => k,
        None => return None,
    };
    proof {
        lemma_find_bounds(json@, pattern@);
    }
    let jl = json.len();
    let pl = pattern.len();
    assert(k + pl <= jl);
    let a = skip_ws(json, k + pl);
    let ghost av = json@.skip(a as int);
    if !(a < json.len() && json[a] == ':') {
        return None;
    }
    assert(av.skip(1) =~= json@.skip(a + 1));
    let b = skip_ws(json, a + 1);
    let ghost bv = json@.skip(b as int);
    if !(b < json.len() && json[b] == '"') {
        return None;
    }
    let rest = slice_chars(json, b + 1, json.len());
    assert(rest@ =~= bv.skip(1));
    match find_char(&rest, '"') {
        Some(e) => {
            proof {
                lemma_find_bounds(rest@, seq!['"']);
            }
            let v = slice_chars(json, b + 1, b + 1 + e);
            assert(v@ =~= bv.subrange(1, 1 + e));
            Some(v)
        },
        None => None,
    }
}

/// The string value of `key` (see `json_value`).
pub fn extract_json_value(json: &[char], key: &[char]) -> (r: Option<Vec<char>>)
    ensures
        opt_chars(r) == json_value(json@, key@),
{
    let p1 = quoted_exec(key, '"');
    match value_after_exec(json, &p1) {
        Some(v) => Some(v),
        None => {
            let p2 = quoted_exec(key, '\'');
            value_after_exec(json, &p2)
        },
    }
}

/// Index of the `close` matching the `open` at the start of `s`.
fn close_index(s: &[char], open: char, close: char) -> (r: Option<usize>)
    requires
        s@.len() > 0,
        s@[0] == open,
        open != close,
    ensures
        opt_index(r) == close_from(s@, 0, 0, open, close),
        r matches Some(i) ==> 1 <= i < s@.len(),
{
    let mut depth: usize = 1;
    let mut i: usize = 1;
    while i < s.len()
        invariant
            1 <= i <= s@.len(),
            1 <= depth <= i,
            s@[0] == open,
            open != close,
            close_from(s@, 0, 0, open, close) == close_from(s@, i as int, depth as int, open, close),
        decreases s@.len() - i,
    {
        let c = s[i];
        if c == open {
            depth += 1;
        } else if c == close {
            if depth - 1 == 0 {
                return Some(i);
            }
            depth -= 1;
        }
        i += 1;
    }
    None
}

/// The inside of the bracketed value after `"key":` (see `block_after`).
pub fn extract_json_block(json: &[char], key: &[char], open: char, close: char) -> (r: Option<
    Vec<char>,
>)
    requires
        open != close,
    ensures
        opt_chars(r) == block_after(json@, key@, open, close),
{
    let pattern = quoted_exec(key, '"');
    let k = match find_exec(json, &pattern) {
        Some(k) => k,
        None => return None,
    };
    proof {
        lemma_find_bounds(json@, pattern@);
    }
    let jl = json.len();
    let pl = pattern.len();
    assert(k + pl <= jl);
    let a = skip_ws(json, k + pl);
    let ghost av = json@.skip(a as int);
    if !(a < json.len() && json[a] == ':') {
        return None;
    }
    assert(av.skip(1) =~= json@.skip(a + 1));
    let b = skip_ws(json, a + 1);
    if !(b < json.len() && json[b] == open) {
        return None;
    }
    let rest = slice_chars(json, b, json.len());
    assert(rest@ =~= json@.skip(b as int));
    match close_index(&rest, open, close) {
        Some(i) => {
            let v = slice_chars(&rest, 1, i);
            Some(v)
        },
        None => None,
    }
}

/// The parameters of a parameter object's inside (see `param_pairs`).
pub fn parse_params(p: &[char]) -> (r: ParamMap)
    ensures
        r@ == pairs_map(param_pairs(p@)),
{
    let mut m = ParamMap::new();
    let mut rem = slice_chars(p, 0, p.len());
    assert(rem@ =~= p@);
    let ghost mut collected: Seq<(Seq<char>, Seq<char>)> = Seq::empty();
    assert(collected + param_pairs(rem@) =~= param_pairs(p@));
    loop
        invariant
            collected + param_pairs(rem@) == param_pairs(p@),
            m@ == pairs_map(collected),
        ensures
            collected == param_pairs(p@),
            m@ == pairs_map(collected),
        decreases rem@.len(),
    {
        let ghost r0 = rem@;
        proof {
            lemma_find_bounds(r0, seq!['"']);
        }
        let ks = match find_char(&rem, '"') {
            Some(k) => k,
            None => {
                assert(collected =~= collected + param_pairs(r0));
                break;
            },
        };
        let rl = rem.len();
        assert(ks < rl);
        let a = slice_chars(&rem, ks + 1, rl);
        assert(a@ =~= r0.skip(ks + 1));
        proof {
            lemma_find_bounds(a@, seq!['"']);
        }
        let ke = match find_char(&a, '"') {
            Some(k) => k,
            None => {
                assert(collected =~= collected + param_pairs(r0));
                break;
            },
        };
        let key = slice_chars(&a, 0, ke);
        let b = slice_chars(&a, ke + 1, a.len());
        assert(key@ =~= a@.take(ke as int));
        assert(b@ =~= a@.skip(ke + 1));
        proof {
            lemma_find_bounds(b@, seq![':']);
        }
        let cp = match find_char(&b, ':') {
            Some(k) => k,
            None => {
                assert(collected =~= collected + param_pairs(r0));
                break;
            },
        };
        let c0 = skip_ws(&b, cp + 1);
        let ghost cv = b@.skip(c0 as int);
        if !(c0 < b.len() && b[c0] == '"') {
            assert(collected =~= collected + param_pairs(r0));
            break;
        }
        let vc = slice_chars(&b, c0 + 1, b.len());
        assert(vc@ =~= cv.skip(1));
        proof {
            lemma_find_bounds(vc@, seq!['"']);
        }
        let ve = match find_char(&vc, '"') {
            Some(k) => k,
            None => {
                assert(collected =~= collected + param_pairs(r0));
                break;
            },
        };
        let value = slice_chars(&vc, 0, ve);
        assert(value@ =~= vc@.take(ve as int));
        let next = slice_chars(&vc, ve + 1, vc.len());
        assert(next@ =~= vc@.skip(ve + 1));
        let ghost pair = (key@, value@);
        m.insert(string_of(&key), string_of(&value));
        proof {
            assert(param_pairs(r0) == seq![pair] + param_pairs(next@));
            assert(collected.push(pair) + param_pairs(next@) =~= collected + param_pairs(r0));
            assert(collected.push(pair).drop_last() =~= collected);
            collected = collected.push(pair);
        }
        rem = next;
    }
    m
}

/// A marking command: its type and its parameters.
#[derive(Debug, PartialEq)]
pub struct MarkingCommand {
    pub command_type: String,
    pub params: ParamMap,
}

/// What a command holds.
pub struct CommandView {
    pub command_type: Seq<char>,
    pub params: Map<Seq<char>, Seq<char>>,
}

impl View for MarkingCommand {
    type V = CommandView;

    open spec fn view(&self) -> CommandView {
        CommandView { command_type: self.command_type@, params: self.params@ }
    }
}

/// The command a JSON object text describes: its non-empty `"type"` string
/// and the string pairs of its `"params"` object (none without one).
pub open spec fn spec_parse_command(json: Seq<char>) -> Option<CommandView> {
    match json_value(json, word_type()) {
        Some(t) => if t.len() == 0 {
            None
        } else {
            Some(
                CommandView {
                    command_type: t,
                    params: match block_after(json, word_params(), '{', '}') {
                        Some(p) => pairs_map(param_pairs(p)),
                        None => Map::empty(),
                    },
                },
            )
        },
        None => None,
    }
}

fn parse_command_chars(json: &[char]) -> (r: Option<MarkingCommand>)
    ensures
        match spec_parse_command(json@) {
            Some(c) => r matches Some(cmd) && cmd@ == c,
            None => r is None,
        },
{
    let type_key = ['t', 'y', 'p', 'e'];
    let params_key = ['p', 'a', 'r', 'a', 'm', 's'];
    assert(type_key@ =~= word_type());
    assert(params_key@ =~= word_params());
    let t = match extract_json_value(json, &type_key) {
        Some(t) => t,
        None => return None,
    };
    if t.len() == 0 {
        return None;
    }
    let params = match extract_json_block(json, &params_key, '{', '}') {
        Some(p) => parse_params(&p),
        None => ParamMap::new(),
    };
    Some(MarkingCommand { command_type: string_of(&t), params })
}

/// Parses one command: `{"type": "...", "params": {"key": "value", ...}}`.
/// `None` without a non-empty string `"type"`.
pub fn parse_command(json: &str) -> (r: Option<MarkingCommand>)
    ensures
        match spec_parse_command(json@) {
            Some(c) => r matches Some(cmd) && cmd@ == c,
            None => r is None,
        },
{
    let chars = chars_of(json);
    parse_command_chars(&chars)
}

/// The texts of the top-level `{...}` objects of `arr`, scanning from `i`
/// at brace nesting `depth` with the current object begun at `start`.
pub open spec fn split_objects(arr: Seq<char>, i: int, depth: int, start: Option<int>) -> Seq<
    Seq<char>,
>
    decreases arr.len() - i,
{
    if i < 0 || i >= arr.len() {
        Seq::empty()
    } else if arr[i] == '{' {
        split_objects(
            arr,
            i + 1,
            depth + 1,
            if depth == 0 {
                Some(i)
            } else {
                start
            },
        )
    } else if arr[i] == '}' {
        if depth - 1 == 0 {
            let rest = split_objects(arr, i + 1, 0, None);
            match start {
                Some(s) => seq![arr.subrange(s, i + 1)] + rest,
                None => rest,
            }
        } else {
            split_objects(arr, i + 1, depth - 1, start)
        }
    } else {
        split_objects(arr, i + 1, depth, start)
    }
}

/// The commands that the object texts describe, skipping the others.
pub open spec fn parsed_commands(objs: Seq<Seq<char>>) -> Seq<CommandView>
    decreases objs.len(),
{
    if objs.len() == 0 {
        Seq::empty()
    } else {
        let rest = parsed_commands(objs.drop_last());
        match spec_parse_command(objs.last()) {
            Some(c) => rest.push(c),
            None => rest,
        }
    }
}

/// What `parse_command_list` returns for a text.
pub open spec fn spec_parse_command_list(json: Seq<char>) -> Seq<CommandView> {
    match block_after(json, word_commands(), '[', ']') {
        Some(arr) => parsed_commands(split_objects(arr, 0, 0, None)),
        None => Seq::empty(),
    }
}

pub open spec fn command_views(v: Seq<MarkingCommand>) -> Seq<CommandView> {
    v.map_values(|c: MarkingCommand| c@)
}

/// Parses a command list: `{"commands": [{...}, {...}]}`; objects that are
/// not commands are skipped, and a text without a `"commands"` array gives
/// none.
pub fn parse_command_list(json: &str) -> (r: Vec<MarkingCommand>)
    ensures
        command_views(r@) == spec_parse_command_list(json@),
{
    let chars = chars_of(json);
    let key = ['c', 'o', 'm', 'm', 'a', 'n', 'd', 's'];
    assert(key@ =~= word_commands());
    let arr = match extract_json_block(&chars, &key, '[', ']') {
        Some(a) => a,
        None => {
            let r: Vec<MarkingCommand> = Vec::new();
            assert(command_views(r@) =~= Seq::<CommandView>::empty());
            return r;
        },
    };
    let mut commands: Vec<MarkingCommand> = Vec::new();
    let ghost mut objs: Seq<Seq<char>> = Seq::empty();
    let mut depth: i128 = 0;
    let mut start: Option<usize> = None;
    let mut i: usize = 0;
    assert(command_views(commands@) =~= parsed_commands(objs));
    while i < arr.len()
        invariant
            i <= arr@.len(),
            -(i as int) <= depth <= i,
            match start {
                Some(s) => s < i,
                None => true,
            },
            objs + split_objects(arr@, i as int, depth as int, opt_index(start)) == split_objects(
                arr@,
                0,
                0,
                None,
            ),
            command_views(commands@) == parsed_commands(objs),
        decreases arr@.len() - i,
    {
        let ch = arr[i];
        if ch == '{' {
            if depth == 0 {
                start = Some(i);
            }
            depth += 1;
        } else if ch == '}' {
            depth -= 1;
            if depth == 0 {
                let ghost rest = split_objects(arr@, i + 1, 0, None);
                if let Some(s) = start {
                    let obj = slice_chars(&arr, s, i + 1);
                    let ghost before = commands@;
                    match parse_command_chars(&obj) {
                        Some(cmd) => {
                            commands.push(cmd);
                            assert(command_views(commands@) =~= command_views(before).push(
                                commands@.last()@,
                            ));
                        },
                        None => {},
                    }
                    proof {
                        assert(objs.push(obj@).drop_last() =~= objs);
                        assert(objs.push(obj@) + rest =~= objs + (seq![obj@] + rest));
                        objs = objs.push(obj@);
                    }
                }
                start = None;
            }
        }
        i += 1;
    }
    assert(objs + split_objects(arr@, i as int, depth as int, opt_index(start)) =~= objs);
    commands
}


/// What executing a command produced.
#[derive(Debug)]
pub struct CommandResult {
    pub lines: Vec<DxfLine>,
    pub texts: Vec<DxfText>,
    pub message: String,
}

/// Whether a command is a crosswalk command.
pub open spec fn is_crosswalk(c: CommandView) -> bool {
    c.command_type == "crosswalk"@
}

/// The value of a numeric parameter: the parameter when it is set to a
/// number literal, else `default`.
pub open spec fn spec_param_num(
    params: Map<Seq<char>, Seq<char>>,
    key: Seq<char>,
    default: Seq<char>,
) -> Seq<char> {
    if params.contains_key(key) && is_float_literal(params[key]) {
        params[key]
    } else {
        default
    }
}

/// A numeric parameter (`params[key].parse().unwrap_or(default)`), kept as
/// its literal.
pub fn param_num(params: &ParamMap, key: &str, default: &NumText) -> (r: NumText)
    ensures
        r@ == spec_param_num(params@, key@, default@),
{
    match params.get(key) {
        Some(v) => match NumText::parse(v.as_str()) {
            Some(n) => n,
            None => default.copy(),
        },
        None => default.copy(),
    }
}

/// The layer a crosswalk command draws on: its `layer` parameter, else
/// 横断歩道.
pub open spec fn spec_crosswalk_layer(c: CommandView) -> Seq<char> {
    if c.params.contains_key("layer"@) {
        c.params["layer"@]
    } else {
        "横断歩道"@
    }
}

/// The layer of a crosswalk command's stripes.
pub fn crosswalk_layer(command: &MarkingCommand) -> (r: String)
    ensures
        r@ == spec_crosswalk_layer(command@),
{
    match command.params.get("layer") {
        Some(l) => l.clone(),
        None => String::from_str("横断歩道"),
    }
}

/// The report of a crosswalk command that drew `n` lines.
pub open spec fn crosswalk_message(n: nat) -> Seq<char> {
    "Generated "@ + decimal(n) + " crosswalk lines"@
}

/// The report of a command of an unknown type.
pub open spec fn unknown_message(command_type: Seq<char>) -> Seq<char> {
    "Unknown command type: "@ + command_type
}

/// Executes a command. A crosswalk command yields `crosswalk_lines`, the
/// stripes drawn for it on the centerlines, with a report of their number;
/// any other type yields nothing and names the unknown type.
pub fn execute_command(command: &MarkingCommand, crosswalk_lines: Vec<DxfLine>) -> (r: CommandResult)
    ensures
        is_crosswalk(command@) ==> {
            &&& line_views(r.lines@) == line_views(crosswalk_lines@)
            &&& r.texts@.len() == 0
            &&& r.message@ == crosswalk_message(crosswalk_lines@.len())
        },
        !is_crosswalk(command@) ==> {
            &&& r.lines@.len() == 0
            &&& r.texts@.len() == 0
            &&& r.message@ == unknown_message(command@.command_type)
        },
{
    let t = chars_of(command.command_type.as_str());
    if crate::text::eq_chars(&t, &chars_of("crosswalk")) {
        let mut message = String::from_str("Generated ");
        push_decimal(&mut message, crosswalk_lines.len());
        message.append(" crosswalk lines");
        CommandResult { lines: crosswalk_lines, texts: Vec::new(), message }
    } else {
        let mut message = String::from_str("Unknown command type: ");
        message.append(command.command_type.as_str());
        CommandResult { lines: Vec::new(), texts: Vec::new(), message }
    }
}

} // verus!

//! Rewrites applied to a generated Python type-stub file.

use vstd::prelude::*;
use crate::convert::{
    chars_of, regex_compiles, regex_replace_all, regex_replaced, string_of, upper_of, uppercase_of,
};
use crate::text::{
    contains_chars, contains_seq, eq_at, find_chars, find_first, push_all, replace_chars, replaced,
    slice_chars, starts_with_chars, starts_with_seq, views, lemma_find_from,
};

verus! {

/// A line without the carriage return that ended it.
pub open spec fn without_cr(l: Seq<char>) -> Seq<char> {
    if l.len() > 0 && l.last() == '\r' {
        l.drop_last()
    } else {
        l
    }
}

/// The lines finished so far in `s`, and the line still open at its end.
pub open spec fn line_scan(s: Seq<char>) -> (Seq<Seq<char>>, Seq<char>)
    decreases s.len(),
{
    if s.len() == 0 {
        (Seq::empty(), Seq::empty())
    } else {
        let prev = line_scan(s.drop_last());
        if s.last() == '\n' {
            (prev.0.push(without_cr(prev.1)), Seq::empty())
        } else {
            (prev.0, prev.1.push(s.last()))
        }
    }
}

/// The lines of `s`: split at `\n`, a `\r` before it dropped, and a last line
/// kept only when it is not empty.
pub open spec fn lines_of(s: Seq<char>) -> Seq<Seq<char>> {
    let sc = line_scan(s);
    if sc.1.len() > 0 {
        sc.0.push(sc.1)
    } else {
        sc.0
    }
}

/// The lines of `s`, as `lines_of` states them.
pub fn split_lines(s: &Vec<char>) -> (r: Vec<Vec<char>>)
    ensures
        views(r@) == lines_of(s@),
{
    let mut lines: Vec<Vec<char>> = Vec::new();
    let mut cur: Vec<char> = Vec::new();
    let mut i: usize = 0;
    assert(s@.subrange(0, 0) =~= Seq::<char>::empty());
    assert(views(lines@) =~= Seq::<Seq<char>>::empty());
    while i < s.len()
        invariant
            i <= s@.len(),
            (views(lines@), cur@) == line_scan(s@.subrange(0, i as int)),
        decreases s.len() - i,
    {
        let c = s[i];
        let ghost pre = s@.subrange(0, i as int);
        assert(s@.subrange(0, i + 1).drop_last() =~= pre);
        if c == '\n' {
            if cur.len() > 0 && cur[cur.len() - 1] == '\r' {
                cur.pop();
            }
            assert(cur@ == without_cr(line_scan(pre).1)) by {
                if line_scan(pre).1.len() > 0 && line_scan(pre).1.last() == '\r' {
                    assert(cur@ =~= line_scan(pre).1.drop_last());
                }
            }
            let done = cur;
            lines.push(done);
            cur = Vec::new();
            assert(views(lines@) =~= line_scan(pre).0.push(without_cr(line_scan(pre).1)));
        } else {
            cur.push(c);
        }
        i += 1;
    }
    assert(s@.subrange(0, i as int) =~= s@);
    if cur.len() > 0 {
        let ghost before = views(lines@);
        lines.push(cur);
        assert(views(lines@) =~= before.push(line_scan(s@).1));
    }
    lines
}

/// The name of the enum class that a line declares with a `Py` prefix, if any.
pub open spec fn py_enum_name(line: Seq<char>) -> Option<Seq<char>> {
    match find_first(line, "class Py"@) {
        Some(start) => if contains_seq(line, "(enum.Enum)"@) {
            let after = line.subrange(start + 6, line.len() as int);
            match find_first(after, "("@) {
                Some(p) => {
                    let name = after.subrange(0, p);
                    if starts_with_seq(name, "Py"@) {
                        Some(name)
                    } else {
                        None
                    }
                },
                None => None,
            }
        } else {
            None
        },
        None => None,
    }
}

/// The `Py`-prefixed enum names that the lines declare, in order.
pub open spec fn py_enum_names(ls: Seq<Seq<char>>) -> Seq<Seq<char>>
    decreases ls.len(),
{
    if ls.len() == 0 {
        Seq::empty()
    } else {
        let prev = py_enum_names(ls.drop_last());
        match py_enum_name(ls.last()) {
            Some(n) => prev.push(n),
            None => prev,
        }
    }
}

/// `s` with each of `names`, in order, replaced everywhere by itself without
/// its first two characters.
pub open spec fn stripped_names(s: Seq<char>, names: Seq<Seq<char>>) -> Seq<char>
    decreases names.len(),
{
    if names.len() == 0 {
        s
    } else {
        let n = names.last();
        replaced(stripped_names(s, names.drop_last()), n, n.subrange(2, n.len() as int))
    }
}

pub open spec fn strip_py_prefix_spec(content: Seq<char>) -> Seq<char> {
    stripped_names(content, py_enum_names(lines_of(content)))
}

/// The enum class name declared on one line, as `py_enum_name` states it.
fn enum_name_of_line(line: &Vec<char>) -> (r: Option<Vec<char>>)
    ensures
        match r {
            Some(n) => py_enum_name(line@) == Some(n@),
            None => py_enum_name(line@) is None,
        },
        r matches Some(n) ==> starts_with_seq(n@, "Py"@),
{
    let class_py = chars_of("class Py");
    let enum_tag = chars_of("(enum.Enum)");
    let open_paren = chars_of("(");
    let py = chars_of("Py");
    proof {
        reveal_strlit("class Py");
    }
    match find_chars(line, &class_py, 0) {
        Some(start) => {
            if !contains_chars(line, &enum_tag) {
                return None;
            }
            proof {
                lemma_find_from(line@, class_py@, 0);
            }
            let n = line.len();
            let after = slice_chars(line, start + 6, n);
            match find_chars(&after, &open_paren, 0) {
                Some(p) => {
                    proof {
                        lemma_find_from(after@, open_paren@, 0);
                    }
                    let name = slice_chars(&after, 0, p);
                    if starts_with_chars(&name, &py) {
                        Some(name)
                    } else {
                        None
                    }
                },
                None => None,
            }
        },
        None => None,
    }
}

/// Removes the `Py` prefix from every enum class name that the stub declares,
/// and from every reference to it.
pub fn strip_py_prefix_from_enums(content: String) -> (r: String)
    ensures
        r@ == strip_py_prefix_spec(content@),
{
    let c = chars_of(content.as_str());
    let lines = split_lines(&c);
    let mut names: Vec<Vec<char>> = Vec::new();
    let mut i: usize = 0;
    let py = chars_of("Py");
    proof {
        reveal_strlit("Py");
    }
    assert(views(lines@).subrange(0, 0) =~= Seq::<Seq<char>>::empty());
    assert(views(names@) =~= Seq::<Seq<char>>::empty());
    while i < lines.len()
        invariant
            i <= lines@.len(),
            views(lines@) == lines_of(c@),
            views(names@) == py_enum_names(views(lines@).subrange(0, i as int)),
            py@ == "Py"@,
            forall|k: int| 0 <= k < names@.len() ==> starts_with_seq(#[trigger] names@[k]@, py@),
        decreases lines.len() - i,
    {
        let ghost pre = views(lines@).subrange(0, i as int);
        assert(views(lines@).subrange(0, i + 1).drop_last() =~= pre);
        assert(views(lines@).subrange(0, i + 1).last() == lines@[i as int]@);
        match enum_name_of_line(&lines[i]) {
            Some(n) => {
                let ghost before = views(names@);
                assert(starts_with_seq(n@, py@));
                names.push(n);
                assert(views(names@) =~= before.push(n@));
            },
            None => {},
        }
        i += 1;
    }
    assert(views(lines@).subrange(0, i as int) =~= views(lines@));
    let mut out = c;
    let mut j: usize = 0;
    assert(views(names@).subrange(0, 0) =~= Seq::<Seq<char>>::empty());
    while j < names.len()
        invariant
            j <= names@.len(),
            out@ == stripped_names(c@, views(names@).subrange(0, j as int)),
            forall|k: int| 0 <= k < names@.len() ==> starts_with_seq(#[trigger] names@[k]@, py@),
            py@.len() == 2,
        decreases names.len() - j,
    {
        let name = &names[j];
        assert(starts_with_seq(names@[j as int]@, py@));
        let bare = slice_chars(name, 2, name.len());
        let ghost pre = views(names@).subrange(0, j as int);
        assert(views(names@).subrange(0, j + 1).drop_last() =~= pre);
        assert(views(names@).subrange(0, j + 1).last() == name@);
        out = replace_chars(&out, name, &bare);
        j += 1;
    }
    assert(views(names@).subrange(0, j as int) =~= views(names@));
    string_of(&out)
}

/// Renames the enum variant `None`, a reserved word in Python, to `_None`.
pub fn rename_none_enum_variant(content: String) -> (r: String)
    ensures
        r@ == replaced(content@, "    None = ..."@, "    _None = ..."@),
{
    let c = chars_of(content.as_str());
    let pat = chars_of("    None = ...");
    let rep = chars_of("    _None = ...");
    proof {
        reveal_strlit("    None = ...");
    }
    string_of(&replace_chars(&c, &pat, &rep))
}

/// The pattern of a default value that is followed by a second `= None`.
pub open spec fn duplicate_default_pattern() -> Seq<char> {
    "(= \\w+(?:\\.\\w+)?) = None\\b"@
}

/// Removes a duplicate `= None` that follows another default value, as in
/// `x: str | Language = Language.English = None`.
pub fn remove_duplicate_default_none(content: String) -> (r: String)
    ensures
        regex_compiles(duplicate_default_pattern()) ==> r@ == regex_replaced(
            duplicate_default_pattern(),
            content@,
            "$1"@,
        ),
        !regex_compiles(duplicate_default_pattern()) ==> r@ == content@,
{
    match regex_replace_all("(= \\w+(?:\\.\\w+)?) = None\\b", content.as_str(), "$1") {
        Some(t) => t,
        None => content,
    }
}

/// The upper-case form of the first character of `w`, followed by the rest.
pub open spec fn capitalized(w: Seq<char>) -> Seq<char> {
    if w.len() == 0 {
        w
    } else {
        upper_of(w[0]) + w.drop_first()
    }
}

/// The capitalized words of `s` that end before its last `_`, and the word
/// still open at its end.
pub open spec fn pascal_scan(s: Seq<char>) -> (Seq<char>, Seq<char>)
    decreases s.len(),
{
    if s.len() == 0 {
        (Seq::empty(), Seq::empty())
    } else {
        let prev = pascal_scan(s.drop_last());
        if s.last() == '_' {
            (prev.0 + capitalized(prev.1), Seq::empty())
        } else {
            (prev.0, prev.1.push(s.last()))
        }
    }
}

/// `s` split at each `_`, each word capitalized, and the words joined.
pub open spec fn pascal_of(s: Seq<char>) -> Seq<char> {
    pascal_scan(s).0 + capitalized(pascal_scan(s).1)
}

fn capitalize(w: &Vec<char>) -> (r: Vec<char>)
    ensures
        r@ == capitalized(w@),
{
    if w.len() == 0 {
        return Vec::new();
    }
    let mut r = uppercase_of(w[0]);
    let rest = slice_chars(w, 1, w.len());
    push_all(&mut r, &rest);
    assert(rest@ =~= w@.drop_first());
    r
}

fn pascal_chars(s: &Vec<char>) -> (r: Vec<char>)
    ensures
        r@ == pascal_of(s@),
{
    let mut done: Vec<char> = Vec::new();
    let mut cur: Vec<char> = Vec::new();
    let mut i: usize = 0;
    assert(s@.subrange(0, 0) =~= Seq::<char>::empty());
    while i < s.len()
        invariant
            i <= s@.len(),
            (done@, cur@) == pascal_scan(s@.subrange(0, i as int)),
        decreases s.len() - i,
    {
        let c = s[i];
        assert(s@.subrange(0, i + 1).drop_last() =~= s@.subrange(0, i as int));
        if c == '_' {
            let w = capitalize(&cur);
            push_all(&mut done, &w);
            cur = Vec::new();
        } else {
            cur.push(c);
        }
        i += 1;
    }
    assert(s@.subrange(0, i as int) =~= s@);
    let w = capitalize(&cur);
    push_all(&mut done, &w);
    done
}

/// Converts a snake_case name to PascalCase: `get_block_count` becomes
/// `GetBlockCount`.
pub fn snake_to_pascal(s: &str) -> (r: String)
    ensures
        r@ == pascal_of(s@),
{
    let c = chars_of(s);
    string_of(&pascal_chars(&c))
}

/// Methods of the RPC client whose stubs are left as they are.
pub open spec fn is_plain_method(name: Seq<char>) -> bool {
    starts_with_seq(name, "subscribe"@) || starts_with_seq(name, "unsubscribe"@) || name
        == "connect"@ || name == "disconnect"@ || name == "start"@ || name == "stop"@ || name
        == "on"@ || name == "remove_listener"@
}

/// The stub line of an RPC method, typed with its request and response
/// dictionaries.
pub open spec fn rpc_line(line: Seq<char>) -> Seq<char> {
    if !contains_seq(line, "request:"@) || !contains_seq(line, "-> typing.Any"@) {
        line
    } else {
        match find_first(line, "def "@) {
            None => line,
            Some(d) => {
                let after = line.subrange(d + 4, line.len() as int);
                match find_first(after, "("@) {
                    None => line,
                    Some(p) => {
                        let name = after.subrange(0, p);
                        if is_plain_method(name) {
                            line
                        } else {
                            let pascal = pascal_of(name);
                            let request = pascal + "Request"@;
                            let response = pascal + "Response"@;
                            let typed = if contains_seq(line, "typing.Optional[dict] = None"@) {
                                replaced(
                                    line,
                                    "typing.Optional[dict] = None"@,
                                    request + " | None = None"@,
                                )
                            } else if contains_seq(line, "request: dict)"@) {
                                replaced(line, "request: dict)"@, "request: "@ + request + ")"@)
                            } else {
                                line
                            };
                            replaced(typed, "-> typing.Any"@, "-> "@ + response)
                        }
                    },
                }
            },
        }
    }
}

fn is_plain_method_chars(name: &Vec<char>) -> (r: bool)
    ensures
        r == is_plain_method(name@),
{
    starts_with_chars(name, &chars_of("subscribe")) || starts_with_chars(
        name,
        &chars_of("unsubscribe"),
    ) || same_chars(name, &chars_of("connect")) || same_chars(name, &chars_of("disconnect"))
        || same_chars(name, &chars_of("start")) || same_chars(name, &chars_of("stop"))
        || same_chars(name, &chars_of("on")) || same_chars(name, &chars_of("remove_listener"))
}

fn same_chars(a: &Vec<char>, b: &Vec<char>) -> (r: bool)
    ensures
        r == (a@ == b@),
{
    if a.len() != b.len() {
        return false;
    }
    let r = eq_at(a, b, 0);
    assert(a@.subrange(0, b@.len() as int) =~= a@);
    r
}

fn rpc_line_chars(line: &Vec<char>) -> (r: Vec<char>)
    ensures
        r@ == rpc_line(line@),
{
    let any_ret = chars_of("-> typing.Any");
    if !contains_chars(line, &chars_of("request:")) || !contains_chars(line, &any_ret) {
        return line.clone();
    }
    let def_kw = chars_of("def ");
    proof {
        reveal_strlit("def ");
    }
    let d = match find_chars(line, &def_kw, 0) {
        Some(d) => d,
        None => {
            return line.clone();
        },
    };
    proof {
        lemma_find_from(line@, def_kw@, 0);
    }
    let n = line.len();
    let after = slice_chars(line, d + 4, n);
    let p = match find_chars(&after, &chars_of("("), 0) {
        Some(p) => p,
        None => {
            return line.clone();
        },
    };
    proof {
        lemma_find_from(after@, "("@, 0);
    }
    let name = slice_chars(&after, 0, p);
    if is_plain_method_chars(&name) {
        return line.clone();
    }
    let pascal = pascal_chars(&name);
    let mut request = pascal.clone();
    push_all(&mut request, &chars_of("Request"));
    let mut response = pascal.clone();
    push_all(&mut response, &chars_of("Response"));
    let optional_dict = chars_of("typing.Optional[dict] = None");
    let required_dict = chars_of("request: dict)");
    proof {
        reveal_strlit("typing.Optional[dict] = None");
        reveal_strlit("request: dict)");
        reveal_strlit("-> typing.Any");
    }
    let typed = if contains_chars(line, &optional_dict) {
        let mut rep = request.clone();
        push_all(&mut rep, &chars_of(" | None = None"));
        replace_chars(line, &optional_dict, &rep)
    } else if contains_chars(line, &required_dict) {
        let mut rep = chars_of("request: ");
        push_all(&mut rep, &request);
        push_all(&mut rep, &chars_of(")"));
        replace_chars(line, &required_dict, &rep)
    } else {
        line.clone()
    };
    let mut ret = chars_of("-> ");
    push_all(&mut ret, &response);
    replace_chars(&typed, &any_ret, &ret)
}

/// Rewrites one line if it is the stub of an RPC method: the request
/// parameter gets the method's request type and the result its response type.
pub fn transform_rpc_method_line(line: &str) -> (r: String)
    ensures
        r@ == rpc_line(line@),
{
    let c = chars_of(line);
    string_of(&rpc_line_chars(&c))
}

/// Each line rewritten by `rpc_line` and followed by a newline.
pub open spec fn rpc_lines_joined(ls: Seq<Seq<char>>) -> Seq<char>
    decreases ls.len(),
{
    if ls.len() == 0 {
        Seq::empty()
    } else {
        rpc_lines_joined(ls.drop_last()) + rpc_line(ls.last()) + seq!['\n']
    }
}

pub open spec fn rpc_signatures_fixed(content: Seq<char>) -> Seq<char> {
    let body = rpc_lines_joined(lines_of(content));
    if body.len() > 0 && body.last() == '\n' && !(content.len() > 0 && content.last() == '\n') {
        body.drop_last()
    } else {
        body
    }
}

/// Rewrites every RPC method stub of the file with `transform_rpc_method_line`.
pub fn fix_rpc_method_signatures(content: String) -> (r: String)
    ensures
        r@ == rpc_signatures_fixed(content@),
{
    let c = chars_of(content.as_str());
    let lines = split_lines(&c);
    let mut out: Vec<char> = Vec::new();
    let mut i: usize = 0;
    assert(views(lines@).subrange(0, 0) =~= Seq::<Seq<char>>::empty());
    while i < lines.len()
        invariant
            i <= lines@.len(),
            views(lines@) == lines_of(c@),
            out@ == rpc_lines_joined(views(lines@).subrange(0, i as int)),
        decreases lines.len() - i,
    {
        let ghost pre = views(lines@).subrange(0, i as int);
        assert(views(lines@).subrange(0, i + 1).drop_last() =~= pre);
        assert(views(lines@).subrange(0, i + 1).last() == lines@[i as int]@);
        let t = rpc_line_chars(&lines[i]);
        push_all(&mut out, &t);
        out.push('\n');
        i += 1;
    }
    assert(views(lines@).subrange(0, i as int) =~= views(lines@));
    if out.len() > 0 && out[out.len() - 1] == '\n' && !(c.len() > 0 && c[c.len() - 1] == '\n') {
        out.pop();
    }
    string_of(&out)
}

/// The listener method stubs of the UTXO processor, with the overloads that
/// are inserted before each.
pub open spec fn add_listener_impl() -> Seq<char> {
    "    def add_event_listener(self, event_or_callback: typing.Any, callback: typing.Optional[typing.Any] = None, *args: typing.Any, **kwargs: typing.Any) -> None:"@
}

pub open spec fn add_listener_overloads() -> Seq<char> {
    "    @typing.overload\n    def add_event_listener(self, callback: typing.Callable[..., typing.Any], *args: typing.Any, **kwargs: typing.Any) -> None: ...\n    @typing.overload\n    def add_event_listener(self, event_or_callback: builtins.str | UtxoProcessorEvent | typing.Sequence[builtins.str | UtxoProcessorEvent], callback: typing.Callable[..., typing.Any], *args: typing.Any, **kwargs: typing.Any) -> None: ...\n"@
}

pub open spec fn remove_listener_impl() -> Seq<char> {
    "    def remove_event_listener(self, event_or_callback: typing.Any, callback: typing.Optional[typing.Any] = None) -> None:"@
}

pub open spec fn remove_listener_overloads() -> Seq<char> {
    "    @typing.overload\n    def remove_event_listener(self, event_or_callback: typing.Callable[..., typing.Any]) -> None: ...\n    @typing.overload\n    def remove_event_listener(self, event_or_callback: builtins.str | UtxoProcessorEvent | typing.Sequence[builtins.str | UtxoProcessorEvent], callback: typing.Optional[typing.Callable[..., typing.Any]] = None) -> None: ...\n"@
}

/// `s` with each occurrence of `method` preceded by `overloads`, when there is one.
pub open spec fn with_overloads(s: Seq<char>, method: Seq<char>, overloads: Seq<char>) -> Seq<char> {
    if contains_seq(s, method) {
        replaced(s, method, overloads + method)
    } else {
        s
    }
}

fn insert_overloads(s: Vec<char>, method: &Vec<char>, overloads: &Vec<char>) -> (r: Vec<char>)
    requires
        method@.len() > 0,
    ensures
        r@ == with_overloads(s@, method@, overloads@),
{
    if contains_chars(&s, method) {
        let mut rep = overloads.clone();
        push_all(&mut rep, method);
        replace_chars(&s, method, &rep)
    } else {
        s
    }
}

/// Inserts typing overloads before the two listener methods of the UTXO
/// processor, so that the callback reads as required in either call form.
pub fn fix_utxo_processor_event_listener_overloads(content: String) -> (r: String)
    ensures
        r@ == with_overloads(
            with_overloads(content@, add_listener_impl(), add_listener_overloads()),
            remove_listener_impl(),
            remove_listener_overloads(),
        ),
{
    let add_impl = chars_of(
        "    def add_event_listener(self, event_or_callback: typing.Any, callback: typing.Optional[typing.Any] = None, *args: typing.Any, **kwargs: typing.Any) -> None:",
    );
    let add_overloads = chars_of(
        "    @typing.overload\n    def add_event_listener(self, callback: typing.Callable[..., typing.Any], *args: typing.Any, **kwargs: typing.Any) -> None: ...\n    @typing.overload\n    def add_event_listener(self, event_or_callback: builtins.str | UtxoProcessorEvent | typing.Sequence[builtins.str | UtxoProcessorEvent], callback: typing.Callable[..., typing.Any], *args: typing.Any, **kwargs: typing.Any) -> None: ...\n",
    );
    let remove_impl = chars_of(
        "    def remove_event_listener(self, event_or_callback: typing.Any, callback: typing.Optional[typing.Any] = None) -> None:",
    );
    let remove_overloads = chars_of(
        "    @typing.overload\n    def remove_event_listener(self, event_or_callback: typing.Callable[..., typing.Any]) -> None: ...\n    @typing.overload\n    def remove_event_listener(self, event_or_callback: builtins.str | UtxoProcessorEvent | typing.Sequence[builtins.str | UtxoProcessorEvent], callback: typing.Optional[typing.Callable[..., typing.Any]] = None) -> None: ...\n",
    );
    proof {
        reveal_strlit(
            "    def add_event_listener(self, event_or_callback: typing.Any, callback: typing.Optional[typing.Any] = None, *args: typing.Any, **kwargs: typing.Any) -> None:",
        );
        reveal_strlit(
            "    def remove_event_listener(self, event_or_callback: typing.Any, callback: typing.Optional[typing.Any] = None) -> None:",
        );
    }
    let c = chars_of(content.as_str());
    let out = insert_overloads(c, &add_impl, &add_overloads);
    let out = insert_overloads(out, &remove_impl, &remove_overloads);
    string_of(&out)
}

} // verus!

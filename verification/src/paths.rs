//! Home directories and environment variables in paths.

use vstd::prelude::*;
use vstd::string::StringExecFns;
use vstd::utf8::{decode_utf8, encode_utf8, encode_utf8_decode_utf8, valid_utf8};

use crate::environment::{lookup, Environment};
use crate::error::{IoError, IoErrorKind, IoErrorView};
use crate::fs_path::FsPath;
use crate::text::{chars_text, concat, same_text, text_chars, text_starts_with};
use crate::views::result_view;

verus! {

/// A set of variables with their values.
pub type Vars = Seq<(Seq<char>, Seq<char>)>;

/// What an expansion yields: the text, or why there is none.
pub type Expansion = Result<Seq<char>, IoErrorView>;

/// Whether a variable's name may start with the character.
pub open spec fn starts_name(ch: char) -> bool {
    ch == '_' || 'a' <= ch <= 'z' || 'A' <= ch <= 'Z'
}

/// Whether a variable's name may go on with the character.
pub open spec fn continues_name(ch: char) -> bool {
    starts_name(ch) || '0' <= ch <= '9'
}

/// The first position from `i` on that does not continue a name.
pub open spec fn name_end(s: Seq<char>, i: int) -> int
    decreases s.len() - i,
{
    if i < s.len() && continues_name(s[i]) {
        name_end(s, i + 1)
    } else {
        i
    }
}

/// The first closing brace from `i` on, or the end.
pub open spec fn brace_end(s: Seq<char>, i: int) -> int
    decreases s.len() - i,
{
    if i < s.len() && s[i] != '}' {
        brace_end(s, i + 1)
    } else {
        i
    }
}

/// The value of a variable; it is an error for it not to be set.
pub open spec fn value_of(env: Vars, name: Seq<char>) -> Expansion {
    match lookup(env, name) {
        Some(value) => Ok(value),
        None => Err(
            IoErrorView {
                kind: IoErrorKind::NotFound,
                message: "environment variable "@ + name + " is not set"@,
            },
        ),
    }
}

/// `head`, then what `tail` yields.
pub open spec fn then_expand(head: Seq<char>, tail: Expansion) -> Expansion {
    match tail {
        Ok(text) => Ok(head + text),
        Err(error) => Err(error),
    }
}

/// What the text from position `i` on expands to. `$NAME` and `${NAME}` stand for
/// the variable's value; `${}` and a dollar sign that starts neither stand for
/// themselves. The first variable that is not set is the error.
pub open spec fn expand_from(s: Seq<char>, i: int, env: Vars) -> Expansion
    decreases s.len() - i,
{
    if i < 0 || i >= s.len() {
        Ok(Seq::empty())
    } else if s[i] != '$' {
        then_expand(seq![s[i]], expand_from(s, i + 1, env))
    } else if i + 1 < s.len() && s[i + 1] == '{' && brace_end(s, i + 2) < s.len() {
        proof {
            lemma_brace_end(s, i + 2);
        }
        let end = brace_end(s, i + 2);
        let name = s.subrange(i + 2, end);
        if name.len() == 0 {
            then_expand(seq!['$', '{', '}'], expand_from(s, end + 1, env))
        } else {
            match value_of(env, name) {
                Ok(value) => then_expand(value, expand_from(s, end + 1, env)),
                Err(error) => Err(error),
            }
        }
    } else if i + 1 < s.len() && starts_name(s[i + 1]) {
        proof {
            lemma_name_end(s, i + 2);
        }
        let end = name_end(s, i + 2);
        match value_of(env, s.subrange(i + 1, end)) {
            Ok(value) => then_expand(value, expand_from(s, end, env)),
            Err(error) => Err(error),
        }
    } else {
        then_expand(seq!['$'], expand_from(s, i + 1, env))
    }
}

/// What the variables in a text expand to.
pub open spec fn vars_expanded(s: Seq<char>, env: Vars) -> Expansion {
    expand_from(s, 0, env)
}

/// The user's home directory.
pub open spec fn home(env: Vars) -> Expansion {
    match lookup(env, "HOME"@) {
        Some(value) => Ok(value),
        None => Err(IoErrorView { kind: IoErrorKind::NotFound, message: "HOME is not set"@ }),
    }
}

/// `tail` put behind the directory `base`, as texts: a `tail` that starts at the
/// root replaces it.
pub open spec fn text_joined(base: Seq<char>, tail: Seq<char>) -> Seq<char> {
    if base.len() == 0 || (tail.len() > 0 && tail[0] == '/') {
        tail
    } else if base.last() == '/' {
        base + tail
    } else {
        base.push('/') + tail
    }
}

/// What a text expands to whose leading `~` stands for the home directory.
pub open spec fn home_expanded(s: Seq<char>, env: Vars) -> Expansion {
    if s == "~"@ {
        home(env)
    } else if "~/"@.is_prefix_of(s) {
        match home(env) {
            Ok(base) => Ok(text_joined(base, s.skip(2))),
            Err(error) => Err(error),
        }
    } else {
        Ok(s)
    }
}

/// What a text expands to: first the home directory, then the variables.
pub open spec fn text_expanded(s: Seq<char>, env: Vars) -> Expansion {
    match home_expanded(s, env) {
        Ok(text) => vars_expanded(text, env),
        Err(error) => Err(error),
    }
}

/// What a path expands to; one that is no valid UTF-8 stays as it is.
pub open spec fn path_expanded(path: Seq<u8>, env: Vars) -> Result<Seq<u8>, IoErrorView> {
    if !valid_utf8(path) {
        Ok(path)
    } else {
        match text_expanded(decode_utf8(path), env) {
            Ok(text) => Ok(encode_utf8(text)),
            Err(error) => Err(error),
        }
    }
}

pub proof fn lemma_name_end(s: Seq<char>, i: int)
    requires
        i <= s.len(),
    ensures
        i <= name_end(s, i) <= s.len(),
    decreases s.len() - i,
{
    if i < s.len() && continues_name(s[i]) {
        lemma_name_end(s, i + 1);
    }
}

pub proof fn lemma_brace_end(s: Seq<char>, i: int)
    requires
        i <= s.len(),
    ensures
        i <= brace_end(s, i) <= s.len(),
    decreases s.len() - i,
{
    if i < s.len() && s[i] != '}' {
        lemma_brace_end(s, i + 1);
    }
}

/// Whether a variable's name may start with the character.
pub fn is_env_var_start(ch: char) -> (yes: bool)
    ensures
        yes == starts_name(ch),
{
    ch == '_' || ('a' <= ch && ch <= 'z') || ('A' <= ch && ch <= 'Z')
}

/// Whether a variable's name may go on with the character.
pub fn is_env_var_continue(ch: char) -> (yes: bool)
    ensures
        yes == continues_name(ch),
{
    is_env_var_start(ch) || ('0' <= ch && ch <= '9')
}

/// The value of a variable, or the error that it is not set.
pub fn env_var_value(name: &str, env: &Environment) -> (value: Result<String, IoError>)
    ensures
        result_view(value) == value_of(env@, name@),
{
    match env.var(name) {
        Some(value) => Ok(value),
        None => {
            let mut message = concat("environment variable ", name);
            message.append(" is not set");
            Err(IoError::new(IoErrorKind::NotFound, message.as_str()))
        },
    }
}

/// The home directory, or the error that it is not set.
pub fn home_dir_string(env: &Environment) -> (dir: Result<String, IoError>)
    ensures
        result_view(dir) == home(env@),
{
    match env.var("HOME") {
        Some(value) => Ok(value),
        None => Err(IoError::new(IoErrorKind::NotFound, "HOME is not set")),
    }
}

/// Replaces a leading `~` by the home directory.
pub fn expand_home(raw: &str, env: &Environment) -> (out: Result<String, IoError>)
    ensures
        result_view(out) == home_expanded(raw@, env@),
{
    if same_text(raw, "~") {
        return home_dir_string(env);
    }
    if text_starts_with(raw, "~/") {
        let base = match home_dir_string(env) {
            Ok(base) => base,
            Err(error) => return Err(error),
        };
        let chars = text_chars(raw);
        proof {
            reveal_strlit("~/");
        }
        let tail = chars_text(&chars, 2, chars.len());
        assert(tail@ == raw@.skip(2));
        let base_chars = text_chars(base.as_str());
        if base_chars.len() == 0 || (chars.len() > 2 && chars[2] == '/') {
            return Ok(tail);
        }
        let mut out = base;
        if base_chars[base_chars.len() - 1] != '/' {
            out.push('/');
        }
        out.append(tail.as_str());
        return Ok(out);
    }
    Ok(raw.to_owned())
}

/// Replaces the variables in a text by their values.
pub fn expand_env_vars(raw: &str, env: &Environment) -> (out: Result<String, IoError>)
    ensures
        result_view(out) == vars_expanded(raw@, env@),
{
    let chars = text_chars(raw);
    let ghost s = raw@;
    let n = chars.len();
    let mut expanded = String::new();
    let mut index: usize = 0;
    assert(then_expand(Seq::empty(), expand_from(s, 0, env@)) == expand_from(s, 0, env@)) by {
        if expand_from(s, 0, env@) is Ok {
            assert(Seq::empty() + expand_from(s, 0, env@)->Ok_0 =~= expand_from(s, 0, env@)->Ok_0);
        }
    }
    while index < n
        invariant
            index <= n == chars@.len(),
            chars@ == s,
            s == raw@,
            vars_expanded(s, env@) == then_expand(expanded@, expand_from(s, index as int, env@)),
        decreases n - index,
    {
        let ghost before = expanded@;
        let ghost start = index as int;
        if chars[index] != '$' {
            expanded.push(chars[index]);
            index += 1;
            proof {
                lemma_then_expand(before, seq![s[start]], expand_from(s, index as int, env@));
                assert(before + seq![s[start]] =~= expanded@);
            }
            continue ;
        }
        if index + 1 < n && chars[index + 1] == '{' {
            let mut end: usize = index + 2;
            while end < n && chars[end] != '}'
                invariant
                    index + 2 <= end <= n == chars@.len(),
                    chars@ == s,
                    brace_end(s, index + 2) == brace_end(s, end as int),
                decreases n - end,
            {
                end += 1;
            }
            if end < n {
                if end == index + 2 {
                    expanded.append("${}");
                    proof {
                        reveal_strlit("${}");
                        assert("${}"@ =~= seq!['$', '{', '}']);
                        assert(s.subrange(index + 2, end as int).len() == 0);
                        lemma_then_expand(before, "${}"@, expand_from(s, end + 1, env@));
                    }
                } else {
                    let name = chars_text(&chars, index + 2, end);
                    let value = match env_var_value(name.as_str(), env) {
                        Ok(value) => value,
                        Err(error) => return Err(error),
                    };
                    expanded.append(value.as_str());
                    proof {
                        lemma_then_expand(before, value@, expand_from(s, end + 1, env@));
                    }
                }
                index = end + 1;
                continue ;
            }
            expanded.push('$');
            index += 1;
            proof {
                lemma_then_expand(before, seq!['$'], expand_from(s, index as int, env@));
                assert(before + seq!['$'] =~= expanded@);
            }
            continue ;
        }
        if index + 1 >= n || !is_env_var_start(chars[index + 1]) {
            expanded.push('$');
            index += 1;
            proof {
                lemma_then_expand(before, seq!['$'], expand_from(s, index as int, env@));
                assert(before + seq!['$'] =~= expanded@);
            }
            continue ;
        }
        let mut end: usize = index + 2;
        while end < n && is_env_var_continue(chars[end])
            invariant
                index + 2 <= end <= n == chars@.len(),
                chars@ == s,
                name_end(s, index + 2) == name_end(s, end as int),
            decreases n - end,
        {
            end += 1;
        }
        let name = chars_text(&chars, index + 1, end);
        let value = match env_var_value(name.as_str(), env) {
            Ok(value) => value,
            Err(error) => return Err(error),
        };
        expanded.append(value.as_str());
        proof {
            lemma_then_expand(before, value@, expand_from(s, end as int, env@));
        }
        index = end;
    }
    proof {
        assert(expanded@ + Seq::<char>::empty() =~= expanded@);
    }
    Ok(expanded)
}

/// Putting two texts in front one by one puts both in front.
proof fn lemma_then_expand(a: Seq<char>, b: Seq<char>, tail: Expansion)
    ensures
        then_expand(a, then_expand(b, tail)) == then_expand(a + b, tail),
{
    if tail is Ok {
        assert(a + (b + tail->Ok_0) =~= (a + b) + tail->Ok_0);
    }
}

/// Replaces a leading `~` and the variables in a path.
pub fn expand_path(path: &FsPath, env: &Environment) -> (out: Result<FsPath, IoError>)
    ensures
        result_view(out) == path_expanded(path@, env@),
{
    let raw = match path.text() {
        Some(raw) => raw,
        None => return Ok(path.clone()),
    };
    proof {
        encode_utf8_decode_utf8(raw@);
    }
    let raw = match expand_home(raw.as_str(), env) {
        Ok(raw) => raw,
        Err(error) => return Err(error),
    };
    match expand_env_vars(raw.as_str(), env) {
        Ok(text) => Ok(FsPath::from_text(text.as_str())),
        Err(error) => Err(error),
    }
}

proof fn lemma_ends_move(s: Seq<char>, d: int, i: int)
    requires
        0 <= d <= i,
        d <= s.len(),
    ensures
        name_end(s.skip(d), i - d) == name_end(s, i) - d,
        brace_end(s.skip(d), i - d) == brace_end(s, i) - d,
    decreases s.len() - i,
{
    if i < s.len() {
        assert(s.skip(d)[i - d] == s[i]);
        lemma_ends_move(s, d, i + 1);
    }
}

/// What a text expands to from a position on depends on what stands there only.
proof fn lemma_expansion_moves(s: Seq<char>, d: int, i: int, env: Vars)
    requires
        0 <= d <= i,
        d <= s.len(),
    ensures
        expand_from(s.skip(d), i - d, env) == expand_from(s, i, env),
    decreases s.len() - i,
{
    let t = s.skip(d);
    if i < s.len() {
        assert(t[i - d] == s[i]);
        assert(i + 1 < s.len() ==> t[i + 1 - d] == s[i + 1]);
        if s[i] == '$' && i + 1 < s.len() {
            lemma_ends_move(s, d, i + 2);
            lemma_name_end(s, i + 2);
            lemma_brace_end(s, i + 2);
            let b = brace_end(s, i + 2);
            let e = name_end(s, i + 2);
            assert(t.subrange(i + 1 - d, e - d) =~= s.subrange(i + 1, e));
            lemma_expansion_moves(s, d, e, env);
            if b < s.len() {
                assert(t.subrange(i + 2 - d, b - d) =~= s.subrange(i + 2, b));
                lemma_expansion_moves(s, d, b + 1, env);
            }
        }
        lemma_expansion_moves(s, d, i + 1, env);
    }
}

proof fn lemma_plain_from(s: Seq<char>, i: int, env: Vars)
    requires
        0 <= i <= s.len(),
        !s.contains('$'),
    ensures
        expand_from(s, i, env) == Ok::<Seq<char>, IoErrorView>(s.skip(i)),
    decreases s.len() - i,
{
    if i < s.len() {
        assert(s[i] != '$');
        lemma_plain_from(s, i + 1, env);
        assert(seq![s[i]] + s.skip(i + 1) =~= s.skip(i));
    } else {
        assert(s.skip(i) =~= Seq::empty());
    }
}

/// A text without a dollar sign that is not `~` and does not start with `~/` stands for
/// itself.
pub proof fn law_plain_text_stays(s: Seq<char>, env: Vars)
    requires
        !s.contains('$'),
        s != "~"@,
        !"~/"@.is_prefix_of(s),
    ensures
        text_expanded(s, env) == Ok::<Seq<char>, IoErrorView>(s),
{
    lemma_plain_from(s, 0, env);
    assert(s.skip(0) =~= s);
}

/// A variable's value, then what the rest of the text expands to.
pub open spec fn value_and_rest(env: Vars, name: Seq<char>, rest: Seq<char>) -> Expansion {
    match value_of(env, name) {
        Ok(value) => then_expand(value, vars_expanded(rest, env)),
        Err(error) => Err(error),
    }
}

/// `${NAME}` at the start of a text stands for the value of the variable, whatever
/// follows it.
pub proof fn law_braces_name_a_variable(name: Seq<char>, rest: Seq<char>, env: Vars)
    requires
        name.len() > 0,
        !name.contains('}'),
    ensures
        vars_expanded(seq!['$', '{'] + name + seq!['}'] + rest, env) == value_and_rest(
            env,
            name,
            rest,
        ),
{
    let s = seq!['$', '{'] + name + seq!['}'] + rest;
    let end = (name.len() + 2) as int;
    assert forall|k: int| 2 <= k < end implies s[k] != '}' by {
        assert(s[k] == name[k - 2]);
    }
    assert(s[end] == '}');
    lemma_brace_end_is(s, 2, end);
    assert(s.subrange(2, end) =~= name);
    lemma_expansion_moves(s, end + 1, end + 1, env);
    assert(s.skip(end + 1) =~= rest);
}

proof fn lemma_brace_end_is(s: Seq<char>, i: int, end: int)
    requires
        0 <= i <= end < s.len(),
        s[end] == '}',
        forall|k: int| i <= k < end ==> s[k] != '}',
    ensures
        brace_end(s, i) == end,
    decreases end - i,
{
    if i < end {
        lemma_brace_end_is(s, i + 1, end);
    }
}

proof fn lemma_name_end_is(s: Seq<char>, i: int, end: int)
    requires
        0 <= i <= end <= s.len(),
        end < s.len() ==> !continues_name(s[end]),
        forall|k: int| i <= k < end ==> continues_name(s[k]),
    ensures
        name_end(s, i) == end,
    decreases end - i,
{
    if i < end {
        lemma_name_end_is(s, i + 1, end);
    }
}

/// `$NAME` at the start of a text stands for the value of the variable, as `${NAME}`
/// does, where what follows does not go on with the name.
pub proof fn law_both_spellings_agree(name: Seq<char>, rest: Seq<char>, env: Vars)
    requires
        name.len() > 0,
        starts_name(name[0]),
        forall|k: int| 0 <= k < name.len() ==> continues_name(#[trigger] name[k]),
        rest.len() > 0 ==> !continues_name(rest[0]),
    ensures
        vars_expanded(seq!['$'] + name + rest, env) == value_and_rest(env, name, rest),
        vars_expanded(seq!['$'] + name + rest, env) == vars_expanded(
            seq!['$', '{'] + name + seq!['}'] + rest,
            env,
        ),
{
    let s = seq!['$'] + name + rest;
    let end = (name.len() + 1) as int;
    assert forall|k: int| 1 <= k < end implies continues_name(s[k]) by {
        assert(s[k] == name[k - 1]);
    }
    assert(end < s.len() ==> s[end] == rest[0]);
    assert(s[1] == name[0]);
    lemma_name_end_is(s, 2, end);
    assert(s.subrange(1, end) =~= name);
    lemma_expansion_moves(s, end, end, env);
    assert(s.skip(end) =~= rest);
    assert(!name.contains('}')) by {
        if name.contains('}') {
            let k = choose|k: int| 0 <= k < name.len() && name[k] == '}';
            assert(continues_name(name[k]));
        }
    }
    law_braces_name_a_variable(name, rest, env);
}

/// Whether the error says of a variable that it is not set, and it is not.
pub open spec fn tells_unset(error: IoErrorView, env: Vars) -> bool {
    ||| error == (IoErrorView { kind: IoErrorKind::NotFound, message: "HOME is not set"@ })
        && lookup(env, "HOME"@) is None
    ||| exists|name: Seq<char>| #[trigger]
        lookup(env, name) is None && value_of(env, name) == Err::<Seq<char>, IoErrorView>(error)
}

proof fn lemma_expansion_error(s: Seq<char>, i: int, env: Vars)
    ensures
        expand_from(s, i, env) matches Err(error) ==> tells_unset(error, env),
    decreases s.len() - i,
{
    if 0 <= i < s.len() {
        if i + 1 < s.len() {
            let b = brace_end(s, i + 2);
            let e = name_end(s, i + 2);
            lemma_brace_end(s, i + 2);
            lemma_name_end(s, i + 2);
            lemma_expansion_error(s, e, env);
            if b < s.len() {
                lemma_expansion_error(s, b + 1, env);
            }
            if value_of(env, s.subrange(i + 2, b)) is Err {
                assert(lookup(env, s.subrange(i + 2, b)) is None);
            }
            if value_of(env, s.subrange(i + 1, e)) is Err {
                assert(lookup(env, s.subrange(i + 1, e)) is None);
            }
        }
        lemma_expansion_error(s, i + 1, env);
    }
}

/// The only way for an expansion to fail is that a variable is not set, and the error
/// says so.
pub proof fn law_expansion_fails_on_unset_variables_only(path: Seq<u8>, env: Vars)
    ensures
        path_expanded(path, env) matches Err(error) ==> error.kind == IoErrorKind::NotFound
            && tells_unset(error, env),
{
    if valid_utf8(path) {
        match home_expanded(decode_utf8(path), env) {
            Ok(text) => {
                lemma_expansion_error(text, 0, env);
            },
            Err(_) => {},
        }
    }
}

/// A variable's name is made of the ASCII letters, the underscore and, but for its start,
/// the ASCII digits.
pub proof fn law_names_are_ascii_words(ch: char)
    ensures
        starts_name(ch) <==> {
            let c = ch as u32;
            65 <= c <= 90 || 97 <= c <= 122 || c == 95
        },
        continues_name(ch) <==> {
            let c = ch as u32;
            65 <= c <= 90 || 97 <= c <= 122 || c == 95 || 48 <= c <= 57
        },
{
}

/// A text without dollar signs in front of another stands for itself, and changes nothing
/// about what the other expands to.
pub proof fn law_text_before_stays(before: Seq<char>, rest: Seq<char>, env: Vars)
    requires
        !before.contains('$'),
    ensures
        vars_expanded(rest, env) matches Ok(text) ==> vars_expanded(before + rest, env) == Ok::<
            Seq<char>,
            IoErrorView,
        >(before + text),
        vars_expanded(rest, env) matches Err(error) ==> vars_expanded(before + rest, env) == Err::<
            Seq<char>,
            IoErrorView,
        >(error),
    decreases before.len(),
{
    let s = before + rest;
    if before.len() == 0 {
        assert(s =~= rest);
        if vars_expanded(rest, env) is Ok {
            assert(before + vars_expanded(rest, env)->Ok_0 =~= vars_expanded(rest, env)->Ok_0);
        }
    } else {
        let less = before.skip(1);
        assert(before.contains(before[0]));
        assert forall|k: int| 0 <= k < less.len() implies less[k] != '$' by {
            assert(before.contains(before[k + 1]));
        }
        law_text_before_stays(less, rest, env);
        lemma_expansion_moves(s, 1, 1, env);
        assert(s.skip(1) =~= less + rest);
        if vars_expanded(rest, env) is Ok {
            let text = vars_expanded(rest, env)->Ok_0;
            assert(seq![s[0]] + (less + text) =~= before + text);
        }
    }
}

/// One character other than a dollar sign stands for itself.
pub proof fn law_other_characters_stay(ch: char, rest: Seq<char>, env: Vars)
    requires
        ch != '$',
    ensures
        vars_expanded(seq![ch] + rest, env) == (match vars_expanded(rest, env) {
            Ok(text) => Ok::<Seq<char>, IoErrorView>(seq![ch] + text),
            Err(error) => Err(error),
        }),
{
    assert(!seq![ch].contains('$'));
    law_text_before_stays(seq![ch], rest, env);
}

/// Nothing expands to nothing.
pub proof fn law_nothing_stays(env: Vars)
    ensures
        vars_expanded(Seq::empty(), env) == Ok::<Seq<char>, IoErrorView>(Seq::empty()),
{
}

/// What a text with a variable in it expands to, in either spelling and wherever the
/// variable stands: what is before it, its value, and what the rest expands to. It is an
/// error for the variable not to be set.
pub proof fn law_variables_are_replaced_anywhere(
    before: Seq<char>,
    name: Seq<char>,
    rest: Seq<char>,
    env: Vars,
)
    requires
        !before.contains('$'),
        name.len() > 0,
    ensures
        !name.contains('}') ==> {
            let out = vars_expanded(before + (seq!['$', '{'] + name + seq!['}'] + rest), env);
            match (lookup(env, name), vars_expanded(rest, env)) {
                (Some(value), Ok(text)) => out == Ok::<Seq<char>, IoErrorView>(
                    before + (value + text),
                ),
                (Some(_), Err(error)) => out == Err::<Seq<char>, IoErrorView>(error),
                (None, _) => out == Err::<Seq<char>, IoErrorView>(
                    IoErrorView {
                        kind: IoErrorKind::NotFound,
                        message: "environment variable "@ + name + " is not set"@,
                    },
                ),
            }
        },
        starts_name(name[0]) && (forall|k: int|
            0 <= k < name.len() ==> continues_name(#[trigger] name[k])) && (rest.len() > 0
            ==> !continues_name(rest[0])) ==> {
            let out = vars_expanded(before + (seq!['$'] + name + rest), env);
            match (lookup(env, name), vars_expanded(rest, env)) {
                (Some(value), Ok(text)) => out == Ok::<Seq<char>, IoErrorView>(
                    before + (value + text),
                ),
                (Some(_), Err(error)) => out == Err::<Seq<char>, IoErrorView>(error),
                (None, _) => out == Err::<Seq<char>, IoErrorView>(
                    IoErrorView {
                        kind: IoErrorKind::NotFound,
                        message: "environment variable "@ + name + " is not set"@,
                    },
                ),
            }
        },
{
    if !name.contains('}') {
        law_braces_name_a_variable(name, rest, env);
        law_text_before_stays(before, seq!['$', '{'] + name + seq!['}'] + rest, env);
    }
    if starts_name(name[0]) && (forall|k: int|
        0 <= k < name.len() ==> continues_name(#[trigger] name[k])) && (rest.len() > 0
        ==> !continues_name(rest[0])) {
        law_both_spellings_agree(name, rest, env);
        law_text_before_stays(before, seq!['$'] + name + rest, env);
    }
}

proof fn lemma_brace_end_found(s: Seq<char>, i: int)
    requires
        0 <= i,
    ensures
        brace_end(s, i) < s.len() ==> s[brace_end(s, i)] == '}' && i <= brace_end(s, i),
    decreases s.len() - i,
{
    if i < s.len() && s[i] != '}' {
        lemma_brace_end_found(s, i + 1);
    }
}

/// A dollar sign that starts neither spelling of a variable stands for itself: one at the
/// end, one before another character, one before a brace that is not closed. So do a
/// dollar sign and braces with nothing between them.
pub proof fn law_lone_dollars_stay(rest: Seq<char>, env: Vars)
    ensures
        rest.len() == 0 || (!starts_name(rest[0]) && (rest[0] != '{' || !rest.contains('}')))
            ==> vars_expanded(seq!['$'] + rest, env) == (match vars_expanded(rest, env) {
            Ok(text) => Ok::<Seq<char>, IoErrorView>(seq!['$'] + text),
            Err(error) => Err(error),
        }),
        vars_expanded(seq!['$', '{', '}'] + rest, env) == (match vars_expanded(rest, env) {
            Ok(text) => Ok::<Seq<char>, IoErrorView>(seq!['$', '{', '}'] + text),
            Err(error) => Err(error),
        }),
{
    let s = seq!['$'] + rest;
    assert(s.skip(1) =~= rest);
    lemma_expansion_moves(s, 1, 1, env);
    if rest.len() > 0 {
        assert(s[1] == rest[0]);
        lemma_brace_end_found(s, 2);
        let b = brace_end(s, 2);
        if b < s.len() {
            assert(rest[b - 1] == '}');
            assert(rest.contains(rest[b - 1]));
        }
    }
    let t = seq!['$', '{', '}'] + rest;
    assert(t[2] == '}');
    assert(brace_end(t, 2) == 2);
    assert(t.subrange(2, 2).len() == 0);
    lemma_expansion_moves(t, 3, 3, env);
    assert(t.skip(3) =~= rest);
}

/// A leading `~` alone or before a slash stands for the home directory, before variables
/// are replaced; in any other text only variables are replaced.
pub proof fn law_home_is_replaced_first(tail: Seq<char>, s: Seq<char>, env: Vars)
    ensures
        s != "~"@ && !"~/"@.is_prefix_of(s) ==> text_expanded(s, env) == vars_expanded(s, env),
        (match lookup(env, "HOME"@) {
            Some(dir) => {
                &&& text_expanded("~"@, env) == vars_expanded(dir, env)
                &&& dir.len() > 0 && dir.last() != '/' && !(tail.len() > 0 && tail[0] == '/')
                    ==> text_expanded("~/"@ + tail, env) == vars_expanded(
                    dir + seq!['/'] + tail,
                    env,
                )
                &&& dir.len() > 0 && dir.last() == '/' && !(tail.len() > 0 && tail[0] == '/')
                    ==> text_expanded("~/"@ + tail, env) == vars_expanded(dir + tail, env)
                &&& dir.len() == 0 || (tail.len() > 0 && tail[0] == '/') ==> text_expanded(
                    "~/"@ + tail,
                    env,
                ) == vars_expanded(tail, env)
            },
            None => {
                let error = IoErrorView {
                    kind: IoErrorKind::NotFound,
                    message: "HOME is not set"@,
                };
                &&& text_expanded("~"@, env) == Err::<Seq<char>, IoErrorView>(error)
                &&& text_expanded("~/"@ + tail, env) == Err::<Seq<char>, IoErrorView>(error)
            },
        }),
{
    reveal_strlit("~");
    reveal_strlit("~/");
    let t = "~/"@ + tail;
    assert(t.subrange(0, 2) =~= "~/"@);
    assert(t.skip(2) =~= tail);
    assert(t.len() != "~"@.len());
    if let Some(dir) = lookup(env, "HOME"@) {
        assert(dir.push('/') + tail =~= dir + seq!['/'] + tail);
    }
}

/// A path that is text expands as its text does; any other stays.
pub proof fn law_paths_expand_as_text(s: Seq<char>, path: Seq<u8>, env: Vars)
    ensures
        path_expanded(encode_utf8(s), env) == (match text_expanded(s, env) {
            Ok(text) => Ok::<Seq<u8>, IoErrorView>(encode_utf8(text)),
            Err(error) => Err(error),
        }),
        !valid_utf8(path) ==> path_expanded(path, env) == Ok::<Seq<u8>, IoErrorView>(path),
{
    encode_utf8_decode_utf8(s);
    vstd::utf8::encode_utf8_valid_utf8(s);
}

} // verus!

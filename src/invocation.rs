//! Finding and taking apart the compiler invocation that the build tool
//! prints for the program's binary.

use vstd::prelude::*;
use crate::text::{chars_of, concat_chars, has_prefix, has_suffix, starts_with};

verus! {

/// Relies on `String`'s `FromIterator<char>`: the string holds the given
/// characters, in order.
#[verifier::external_body]
fn string_from_chars(v: &Vec<char>) -> (r: String)
    ensures
        r@ == v@,
{
    v.iter().collect()
}

/// The first position from `i` on where `sep` occurs in `s`.
pub open spec fn find_from(s: Seq<char>, sep: Seq<char>, i: nat) -> Option<nat>
    decreases s.len() + 1 - i,
{
    if i + sep.len() > s.len() {
        None
    } else if s.subrange(i as int, (i + sep.len()) as int) == sep {
        Some(i)
    } else {
        find_from(s, sep, i + 1)
    }
}

/// A position that `find_from` gives lies at or after `i`, with room for
/// `sep` before the end.
pub proof fn lemma_find_from_bounds(s: Seq<char>, sep: Seq<char>, i: nat)
    ensures
        find_from(s, sep, i) matches Some(j) ==> i <= j && j + sep.len() <= s.len()
            && s.subrange(j as int, (j + sep.len()) as int) == sep,
    decreases s.len() + 1 - i,
{
    if i + sep.len() <= s.len() && s.subrange(i as int, (i + sep.len()) as int) != sep {
        lemma_find_from_bounds(s, sep, i + 1);
    }
}

/// `t` occurs in `s`.
pub open spec fn contains_seq(s: Seq<char>, t: Seq<char>) -> bool {
    find_from(s, t, 0) is Some
}

/// The pieces of `s` between occurrences of the non-empty `sep`, as
/// `str::split` gives them.
pub open spec fn split_by(s: Seq<char>, sep: Seq<char>) -> Seq<Seq<char>>
    decreases s.len(),
{
    if sep.len() == 0 {
        seq![s]
    } else {
        match find_from(s, sep, 0) {
            Some(i) => if i + sep.len() <= s.len() {
                seq![s.take(i as int)] + split_by(s.skip((i + sep.len()) as int), sep)
            } else {
                seq![s]
            },
            None => seq![s],
        }
    }
}

/// The first position from `i` on where `sep` occurs in `s`.
fn find_seq(s: &Vec<char>, sep: &Vec<char>, i: usize) -> (r: Option<usize>)
    requires
        sep@.len() > 0,
    ensures
        r matches Some(j) ==> find_from(s@, sep@, i as nat) == Some(j as nat),
        r is None ==> find_from(s@, sep@, i as nat) is None,
    decreases s@.len() - i,
{
    if sep.len() > s.len() || i > s.len() - sep.len() {
        return None;
    }
    let mut k: usize = 0;
    while k < sep.len()
        invariant
            i + sep.len() <= s.len(),
            k <= sep@.len(),
            forall|m: int| 0 <= m < k ==> s@[i + m] == sep@[m],
        decreases sep@.len() - k,
    {
        if s[i + k] != sep[k] {
            proof {
                assert(s@.subrange(i as int, i + sep@.len())[k as int] != sep@[k as int]);
            }
            return find_seq(s, sep, i + 1);
        }
        k = k + 1;
    }
    proof {
        assert(s@.subrange(i as int, i + sep@.len()) =~= sep@);
    }
    Some(i)
}

/// Whether `t` occurs in `s`.
pub fn contains_chars(s: &Vec<char>, t: &Vec<char>) -> (r: bool)
    ensures
        r == contains_seq(s@, t@),
{
    if t.len() == 0 {
        proof {
            assert(s@.subrange(0, 0) =~= t@);
        }
        return true;
    }
    find_seq(s, t, 0).is_some()
}

/// The characters of `s` from `a` up to `b`.
fn slice_chars(s: &Vec<char>, a: usize, b: usize) -> (r: Vec<char>)
    requires
        a <= b <= s@.len(),
    ensures
        r@ == s@.subrange(a as int, b as int),
{
    let mut r: Vec<char> = Vec::new();
    let mut k: usize = a;
    while k < b
        invariant
            a <= k <= b,
            b <= s@.len(),
            r@ == s@.subrange(a as int, k as int),
        decreases b - k,
    {
        r.push(s[k]);
        proof {
            assert(s@.subrange(a as int, k + 1) =~= s@.subrange(a as int, k as int).push(s@[k as int]));
        }
        k = k + 1;
    }
    r
}

/// The pieces of `s` between occurrences of `sep`, as `str::split` gives
/// them.
pub fn split_chars(s: &Vec<char>, sep: &Vec<char>) -> (r: Vec<Vec<char>>)
    requires
        sep@.len() > 0,
    ensures
        r@.len() == split_by(s@, sep@).len(),
        forall|m: int| 0 <= m < r@.len() ==> (#[trigger] r@[m])@ == split_by(s@, sep@)[m],
{
    let mut pieces: Vec<Vec<char>> = Vec::new();
    let mut start: usize = 0;
    let ghost mut done: Seq<Seq<char>> = Seq::empty();
    proof {
        assert(s@.skip(0) =~= s@);
    }
    loop
        invariant_except_break
            done + split_by(s@.skip(start as int), sep@) == split_by(s@, sep@),
        invariant
            sep@.len() > 0,
            start <= s@.len(),
            pieces@.len() == done.len(),
            forall|m: int| 0 <= m < pieces@.len() ==> (#[trigger] pieces@[m])@ == done[m],
        ensures
            pieces@.len() == split_by(s@, sep@).len(),
            forall|m: int| 0 <= m < pieces@.len() ==> (#[trigger] pieces@[m])@ == split_by(s@, sep@)[m],
        decreases s@.len() - start,
    {
        let rest = slice_chars(s, start, s.len());
        proof {
            assert(rest@ =~= s@.skip(start as int));
        }
        match find_seq(&rest, sep, 0) {
            Some(i) => {
                proof {
                    lemma_find_from_bounds(rest@, sep@, 0);
                }
                let piece = slice_chars(&rest, 0, i);
                proof {
                    assert(piece@ =~= rest@.take(i as int));
                    assert(rest@.skip(i + sep@.len()) =~= s@.skip(start + i + sep@.len()));
                    assert(done.push(piece@) + split_by(s@.skip(start + i + sep@.len()), sep@)
                        =~= done + split_by(rest@, sep@));
                    done = done.push(piece@);
                }
                pieces.push(piece);
                start = start + i + sep.len();
            },
            None => {
                proof {
                    assert(done.push(rest@) =~= split_by(s@, sep@));
                    done = done.push(rest@);
                }
                pieces.push(rest);
                break;
            },
        }
    }
    pieces
}

} // verus!

verus! {

/// `s` with every dash made an underscore.
pub open spec fn dashes_to_underscores(s: Seq<char>) -> Seq<char> {
    s.map_values(|c: char| if c == '-' {
        '_'
    } else {
        c
    })
}

/// The command compiles the binary crate `name` from its `main.rs`, and is
/// not the build script's compilation.
pub open spec fn is_bin_invocation(cmd: Seq<char>, name: Seq<char>) -> bool {
    &&& contains_seq(cmd, "rustc"@)
    &&& contains_seq(cmd, "--crate-type bin"@)
    &&& !contains_seq(cmd, "build.rs"@)
    &&& contains_seq(cmd, "main.rs"@)
    &&& contains_seq(cmd, "--crate-name "@ + name)
}

/// The first of `cmds` that compiles binary crate `name`.
pub open spec fn first_in_commands(cmds: Seq<Seq<char>>, name: Seq<char>) -> Option<Seq<char>>
    decreases cmds.len(),
{
    if cmds.len() == 0 {
        None
    } else if is_bin_invocation(cmds[0], name) {
        Some(cmds[0])
    } else {
        first_in_commands(cmds.drop_first(), name)
    }
}

/// The first command, splitting each of `parts` at "&& ", that compiles `name`.
pub open spec fn first_in_parts(parts: Seq<Seq<char>>, name: Seq<char>) -> Option<Seq<char>>
    decreases parts.len(),
{
    if parts.len() == 0 {
        None
    } else {
        match first_in_commands(split_by(parts[0], "&& "@), name) {
            Some(c) => Some(c),
            None => first_in_parts(parts.drop_first(), name),
        }
    }
}

/// The first command, splitting each of `lines` at backquotes and then at
/// "&& ", that compiles `name`.
pub open spec fn first_in_lines(lines: Seq<Seq<char>>, name: Seq<char>) -> Option<Seq<char>>
    decreases lines.len(),
{
    if lines.len() == 0 {
        None
    } else {
        match first_in_parts(split_by(lines[0], "`"@), name) {
            Some(c) => Some(c),
            None => first_in_lines(lines.drop_first(), name),
        }
    }
}

/// The compiler invocation for the binary in the build tool's verbose output:
/// the first command, splitting the output into lines, lines at backquotes
/// and those parts at "&& ", that compiles the binary, named after `bin_name`
/// or else the package, with dashes as underscores.
pub open spec fn rustc_invocation(
    build_output: Seq<char>,
    package_name: Seq<char>,
    bin_name: Option<Seq<char>>,
) -> Option<Seq<char>> {
    let name = dashes_to_underscores(
        match bin_name {
            Some(b) => b,
            None => package_name,
        },
    );
    first_in_lines(split_by(build_output, "\n"@), name)
}

/// The first command of `cmds` that compiles binary crate `name`.
fn first_command(cmds: &Vec<Vec<char>>, name: &Vec<char>) -> (r: Option<Vec<char>>)
    ensures
        r matches Some(c) ==> first_in_commands(cmds@.map_values(|v: Vec<char>| v@), name@) == Some(c@),
        r is None ==> first_in_commands(cmds@.map_values(|v: Vec<char>| v@), name@) is None,
{
    let ghost all = cmds@.map_values(|v: Vec<char>| v@);
    let rustc = chars_of("rustc");
    let bin = chars_of("--crate-type bin");
    let script = chars_of("build.rs");
    let main = chars_of("main.rs");
    let flag = concat_chars(&chars_of("--crate-name "), name);
    let mut i: usize = 0;
    proof {
        assert(all.skip(0) =~= all);
    }
    while i < cmds.len()
        invariant
            i <= cmds@.len(),
            all == cmds@.map_values(|v: Vec<char>| v@),
            rustc@ == "rustc"@,
            bin@ == "--crate-type bin"@,
            script@ == "build.rs"@,
            main@ == "main.rs"@,
            flag@ == "--crate-name "@ + name@,
            first_in_commands(all, name@) == first_in_commands(all.skip(i as int), name@),
        decreases cmds@.len() - i,
    {
        let c = &cmds[i];
        proof {
            assert(all.skip(i as int).drop_first() =~= all.skip(i + 1));
            assert(all.skip(i as int)[0] == c@);
        }
        if contains_chars(c, &rustc) && contains_chars(c, &bin) && !contains_chars(c, &script)
            && contains_chars(c, &main) && contains_chars(c, &flag) {
            return Some(slice_chars(c, 0, c.len()));
        }
        i = i + 1;
    }
    None
}

/// The views of a vector of character vectors.
pub open spec fn views(v: Seq<Vec<char>>) -> Seq<Seq<char>> {
    v.map_values(|x: Vec<char>| x@)
}

/// Gets the compiler invocation for the program's binary from the verbose
/// output of the build tool.
pub fn get_rustc_invocation(build_output: &str, package_name: &str, bin_name: Option<String>) -> (r:
    Option<String>)
    ensures
        r matches Some(c) ==> rustc_invocation(
            build_output@,
            package_name@,
            match bin_name {
                Some(b) => Some(b@),
                None => None,
            },
        ) == Some(c@),
        r is None ==> rustc_invocation(
            build_output@,
            package_name@,
            match bin_name {
                Some(b) => Some(b@),
                None => None,
            },
        ) is None,
{
    let raw = match &bin_name {
        Some(b) => chars_of(b.as_str()),
        None => chars_of(package_name),
    };
    let mut name: Vec<char> = Vec::new();
    let mut k: usize = 0;
    while k < raw.len()
        invariant
            k <= raw@.len(),
            name@ == dashes_to_underscores(raw@.take(k as int)),
        decreases raw@.len() - k,
    {
        name.push(if raw[k] == '-' {
            '_'
        } else {
            raw[k]
        });
        proof {
            assert(dashes_to_underscores(raw@.take(k + 1)) =~= dashes_to_underscores(
                raw@.take(k as int),
            ).push(if raw@[k as int] == '-' {
                '_'
            } else {
                raw@[k as int]
            }));
        }
        k = k + 1;
    }
    proof {
        assert(raw@.take(k as int) =~= raw@);
    }
    let out = chars_of(build_output);
    let newline = chars_of("\n");
    let tick = chars_of("`");
    let and = chars_of("&& ");
    proof {
        reveal_strlit("\n");
        reveal_strlit("`");
        reveal_strlit("&& ");
    }
    let lines = split_chars(&out, &newline);
    let ghost lv = split_by(out@, newline@);
    proof {
        assert(raw@ == match bin_name {
            Some(b) => b@,
            None => package_name@,
        });
        assert(views(lines@) =~= lv);
        assert(lv.skip(0) =~= lv);
    }
    let mut i: usize = 0;
    while i < lines.len()
        invariant
            i <= lines@.len(),
            lines@.len() == lv.len(),
            forall|m: int| 0 <= m < lines@.len() ==> (#[trigger] lines@[m])@ == lv[m],
            tick@ == "`"@,
            and@ == "&& "@,
            tick@.len() > 0,
            and@.len() > 0,
            first_in_lines(lv, name@) == first_in_lines(lv.skip(i as int), name@),
            lv == split_by(build_output@, "\n"@),
            name@ == dashes_to_underscores(
                match bin_name {
                    Some(b) => b@,
                    None => package_name@,
                },
            ),
        decreases lines@.len() - i,
    {
        proof {
            assert(lv.skip(i as int).drop_first() =~= lv.skip(i + 1));
            assert(lv.skip(i as int)[0] == lines@[i as int]@);
        }
        let parts = split_chars(&lines[i], &tick);
        let ghost pv = split_by(lv[i as int], tick@);
        proof {
            assert(pv.skip(0) =~= pv);
        }
        let mut j: usize = 0;
        while j < parts.len()
            invariant
                j <= parts@.len(),
                parts@.len() == pv.len(),
                forall|m: int| 0 <= m < parts@.len() ==> (#[trigger] parts@[m])@ == pv[m],
                and@ == "&& "@,
                and@.len() > 0,
                first_in_parts(pv, name@) == first_in_parts(pv.skip(j as int), name@),
                i < lv.len(),
                pv == split_by(lv[i as int], tick@),
                tick@ == "`"@,
                first_in_lines(lv, name@) == first_in_lines(lv.skip(i as int), name@),
                lv == split_by(build_output@, "\n"@),
                name@ == dashes_to_underscores(
                    match bin_name {
                        Some(b) => b@,
                        None => package_name@,
                    },
                ),
            decreases parts@.len() - j,
        {
            proof {
                assert(pv.skip(j as int).drop_first() =~= pv.skip(j + 1));
                assert(pv.skip(j as int)[0] == parts@[j as int]@);
            }
            let cmds = split_chars(&parts[j], &and);
            proof {
                assert(cmds@.map_values(|v: Vec<char>| v@) =~= split_by(parts@[j as int]@, and@));
            }
            if let Some(c) = first_command(&cmds, &name) {
                proof {
                    assert(first_in_parts(pv.skip(j as int), name@) == Some(c@));
                    assert(first_in_parts(split_by(lv.skip(i as int)[0], tick@), name@) == Some(c@));
                    assert(first_in_lines(lv.skip(i as int), name@) == Some(c@));
                }
                return Some(string_from_chars(&c));
            }
            j = j + 1;
        }
        i = i + 1;
    }
    None
}

} // verus!

verus! {

/// `s` with `suf` taken off its end as long as it ends with it.
pub open spec fn trim_suffix_all(s: Seq<char>, suf: Seq<char>) -> Seq<char>
    decreases s.len(),
{
    if suf.len() > 0 && has_suffix(s, suf) {
        trim_suffix_all(s.take(s.len() - suf.len()), suf)
    } else {
        s
    }
}

/// An argument naming the program's `main.rs`, with the manifest's directory
/// put in front; any other argument as it is.
pub open spec fn with_dir(dir: Seq<char>, arg: Seq<char>) -> Seq<char> {
    if contains_seq(arg, "main.rs"@) {
        dir + arg
    } else {
        arg
    }
}

/// One step of joining quoted arguments: the arguments done so far and the
/// quoted argument being gathered, after one more piece `arg`.
pub open spec fn join_step(state: (Seq<Seq<char>>, Seq<char>), arg: Seq<char>) -> (
    Seq<Seq<char>>,
    Seq<char>,
) {
    let (res, temp) = state;
    if arg.len() >= 2 && arg[0] == '"' && arg.last() == '"' {
        (res.push(temp + arg.subrange(1, arg.len() - 1)), Seq::empty())
    } else if arg.len() >= 1 && arg.last() == '"' {
        (res.push(temp + arg.drop_last()), Seq::empty())
    } else if arg.len() >= 1 && arg[0] == '"' {
        (res, temp + arg.drop_first() + seq![' '])
    } else if temp.len() > 0 {
        (res, temp + arg + seq![' '])
    } else {
        (res.push(arg), temp)
    }
}

/// Joining the pieces `args`, each given the manifest's directory by
/// `with_dir`, into arguments: a piece that opens a double quote starts an
/// argument that runs, spaces kept, to the piece that closes it.
pub open spec fn join_args(dir: Seq<char>, args: Seq<Seq<char>>) -> (Seq<Seq<char>>, Seq<char>)
    decreases args.len(),
{
    if args.len() == 0 {
        (Seq::empty(), Seq::empty())
    } else {
        join_step(join_args(dir, args.drop_last()), with_dir(dir, args.last()))
    }
}

/// `s` with each backslash that comes before a double quote taken out.
pub open spec fn unescape(s: Seq<char>) -> Seq<char>
    decreases s.len(),
{
    if s.len() == 0 {
        Seq::empty()
    } else if s.len() >= 2 && s[0] == '\\' && s[1] == '"' {
        seq!['"'] + unescape(s.skip(2))
    } else {
        seq![s[0]] + unescape(s.skip(1))
    }
}

/// An argument after unescaping, with any error format made the short one.
pub open spec fn fix_arg(a: Seq<char>) -> Seq<char> {
    let u = unescape(a);
    if has_prefix(u, "--error-format="@) {
        "--error-format=short"@
    } else {
        u
    }
}

/// The arguments `xs` fixed by `fix_arg`, leaving out those that then set a
/// JSON output.
pub open spec fn finish_args(xs: Seq<Seq<char>>) -> Seq<Seq<char>>
    decreases xs.len(),
{
    if xs.len() == 0 {
        Seq::empty()
    } else {
        let prev = finish_args(xs.drop_last());
        let f = fix_arg(xs.last());
        if has_prefix(f, "--json="@) {
            prev
        } else {
            prev.push(f)
        }
    }
}

/// The arguments of compiler invocation `command`, the program's `main.rs`
/// found beside the manifest at `manifest_path`.
pub open spec fn command_args(manifest_path: Seq<char>, command: Seq<char>) -> Seq<Seq<char>> {
    finish_args(
        join_args(trim_suffix_all(manifest_path, "Cargo.toml"@), split_by(command, seq![' '])).0,
    )
}

/// `s` with `suf` taken off its end as long as it ends with it.
fn trim_end_all(s: &Vec<char>, suf: &Vec<char>) -> (r: Vec<char>)
    ensures
        r@ == trim_suffix_all(s@, suf@),
{
    let mut cur = slice_chars(s, 0, s.len());
    proof {
        assert(s@.subrange(0, s@.len() as int) =~= s@);
    }
    if suf.len() == 0 {
        return cur;
    }
    while crate::text::ends_with(&cur, suf)
        invariant
            suf@.len() > 0,
            trim_suffix_all(cur@, suf@) == trim_suffix_all(s@, suf@),
        decreases cur@.len(),
    {
        let n = cur.len() - suf.len();
        cur = slice_chars(&cur, 0, n);
    }
    cur
}

/// `s` with each backslash that comes before a double quote taken out.
fn unescape_chars(s: &Vec<char>) -> (r: Vec<char>)
    ensures
        r@ == unescape(s@),
{
    let mut out: Vec<char> = Vec::new();
    let mut i: usize = 0;
    proof {
        assert(s@.skip(0) =~= s@);
    }
    while i < s.len()
        invariant
            i <= s@.len(),
            out@ + unescape(s@.skip(i as int)) == unescape(s@),
        decreases s@.len() - i,
    {
        let ghost rest = s@.skip(i as int);
        if i + 1 < s.len() && s[i] == '\\' && s[i + 1] == '"' {
            proof {
                assert(rest.skip(2) =~= s@.skip(i + 2));
                assert(out@.push('"') + unescape(s@.skip(i + 2)) =~= out@ + unescape(rest));
            }
            out.push('"');
            i = i + 2;
        } else {
            proof {
                assert(rest.skip(1) =~= s@.skip(i + 1));
                assert(out@.push(s@[i as int]) + unescape(s@.skip(i + 1)) =~= out@ + unescape(rest));
            }
            out.push(s[i]);
            i = i + 1;
        }
    }
    proof {
        assert(s@.skip(i as int) =~= Seq::<char>::empty());
        assert(out@ + Seq::<char>::empty() =~= out@);
    }
    out
}

/// Split the compiler invocation `command` into its arguments: split at
/// spaces, join quoted arguments, put the manifest's directory in front of
/// the path of `main.rs`, unescape double quotes, ask for short error
/// messages and drop JSON output settings.
pub fn split_args(relative_manifest_path: &str, command: &str) -> (r: Vec<String>)
    ensures
        r@.len() == command_args(relative_manifest_path@, command@).len(),
        forall|m: int|
            0 <= m < r@.len() ==> (#[trigger] r@[m])@ == command_args(
                relative_manifest_path@,
                command@,
            )[m],
{
    let dir = trim_end_all(&chars_of(relative_manifest_path), &chars_of("Cargo.toml"));
    let main_rs = chars_of("main.rs");
    let space: Vec<char> = vec![' '];
    proof {
        assert(space@ =~= seq![' ']);
    }
    let pieces = split_chars(&chars_of(command), &space);
    let ghost pv = split_by(command@, seq![' ']);
    let mut res: Vec<Vec<char>> = Vec::new();
    let mut temp: Vec<char> = Vec::new();
    let mut i: usize = 0;
    proof {
        assert(pv.take(0) =~= Seq::<Seq<char>>::empty());
        assert(views(res@) =~= Seq::<Seq<char>>::empty());
    }
    while i < pieces.len()
        invariant
            i <= pieces@.len(),
            pieces@.len() == pv.len(),
            forall|m: int| 0 <= m < pieces@.len() ==> (#[trigger] pieces@[m])@ == pv[m],
            main_rs@ == "main.rs"@,
            (views(res@), temp@) == join_args(dir@, pv.take(i as int)),
        decreases pieces@.len() - i,
    {
        let piece = &pieces[i];
        let arg = if contains_chars(piece, &main_rs) {
            concat_chars(&dir, piece)
        } else {
            slice_chars(piece, 0, piece.len())
        };
        proof {
            assert(pv.take(i + 1).drop_last() =~= pv.take(i as int));
            assert(pv.take(i + 1).last() == piece@);
            assert(piece@.subrange(0, piece@.len() as int) =~= piece@);
            assert(arg@ == with_dir(dir@, piece@));
        }
        let n = arg.len();
        let ghost r0 = views(res@);
        let ghost t0 = temp@;
        if n >= 2 && arg[0] == '"' && arg[n - 1] == '"' {
            let inner = slice_chars(&arg, 1, n - 1);
            let joined = concat_chars(&temp, &inner);
            res.push(joined);
            temp = Vec::new();
            proof {
                assert(views(res@) =~= r0.push(t0 + arg@.subrange(1, arg@.len() - 1)));
                assert(temp@ =~= Seq::<char>::empty());
            }
        } else if n >= 1 && arg[n - 1] == '"' {
            let inner = slice_chars(&arg, 0, n - 1);
            let joined = concat_chars(&temp, &inner);
            res.push(joined);
            temp = Vec::new();
            proof {
                assert(arg@.subrange(0, n - 1) =~= arg@.drop_last());
                assert(views(res@) =~= r0.push(t0 + arg@.drop_last()));
                assert(temp@ =~= Seq::<char>::empty());
            }
        } else if n >= 1 && arg[0] == '"' {
            let inner = slice_chars(&arg, 1, n);
            temp = concat_chars(&temp, &inner);
            temp.push(' ');
            proof {
                assert(arg@.subrange(1, n as int) =~= arg@.drop_first());
            }
        } else if temp.len() > 0 {
            temp = concat_chars(&temp, &arg);
            temp.push(' ');
        } else {
            res.push(arg);
            proof {
                assert(views(res@) =~= r0.push(arg@));
            }
        }
        i = i + 1;
    }
    proof {
        assert(pv.take(i as int) =~= pv);
    }
    let ghost joined = views(res@);
    let error_format = chars_of("--error-format=");
    let json = chars_of("--json=");
    let mut out: Vec<String> = Vec::new();
    let mut k: usize = 0;
    proof {
        assert(joined.take(0) =~= Seq::<Seq<char>>::empty());
    }
    while k < res.len()
        invariant
            k <= res@.len(),
            joined == views(res@),
            error_format@ == "--error-format="@,
            json@ == "--json="@,
            out@.len() == finish_args(joined.take(k as int)).len(),
            forall|m: int| 0 <= m < out@.len() ==> (#[trigger] out@[m])@ == finish_args(joined.take(k as int))[m],
        decreases res@.len() - k,
    {
        let u = unescape_chars(&res[k]);
        let fixed = if starts_with(&u, &error_format) {
            chars_of("--error-format=short")
        } else {
            u
        };
        proof {
            assert(joined.take(k + 1).drop_last() =~= joined.take(k as int));
            assert(joined.take(k + 1).last() == res@[k as int]@);
            assert(fixed@ == fix_arg(res@[k as int]@));
        }
        if !starts_with(&fixed, &json) {
            out.push(string_from_chars(&fixed));
        }
        k = k + 1;
    }
    proof {
        assert(joined.take(k as int) =~= joined);
    }
    out
}

} // verus!

verus! {

/// The command line's choices: the manifest path, the output path, and
/// whether to draw the chains rather than the whole call graph.
pub open spec fn arguments_of(args: Seq<Seq<char>>) -> Option<(Seq<char>, Seq<char>, bool)> {
    if args.len() < 3 {
        None
    } else {
        Some((args[1], args[2], !(args.len() > 3 && args[3] == "--call"@)))
    }
}

/// Extract the needed arguments from the command line `args`: the manifest
/// path, the output path, and whether to draw the chains, which is so unless
/// the third argument is `--call`. None when an argument is missing.
pub fn extract_arguments(args: &Vec<String>) -> (r: Option<(String, String, bool)>)
    ensures
        r is None <==> arguments_of(views_of_strings(args@)) is None,
        r matches Some((a, b, chains)) ==> arguments_of(views_of_strings(args@)) == Some(
            (a@, b@, chains),
        ),
{
    if args.len() < 3 {
        return None;
    }
    let call = chars_of("--call");
    let chains = if args.len() > 3 {
        let third = chars_of(args[3].as_str());
        !(third.len() == call.len() && starts_with(&third, &call))
    } else {
        true
    };
    proof {
        assert(views_of_strings(args@)[1] == args@[1]@);
        assert(views_of_strings(args@)[2] == args@[2]@);
        if args@.len() > 3 {
            assert(views_of_strings(args@)[3] == args@[3]@);
            assert(args@[3]@.take(args@[3]@.len() as int) =~= args@[3]@);
            if args@[3]@.len() == call@.len() && has_prefix(args@[3]@, call@) {
                assert(args@[3]@ =~= call@);
            }
        }
    }
    Some((args[1].clone(), args[2].clone(), chains))
}

/// The views of a sequence of strings.
pub open spec fn views_of_strings(v: Seq<String>) -> Seq<Seq<char>> {
    v.map_values(|s: String| s@)
}

} // verus!

//! The command lines that `docker` is run with, and the reading of what it prints.
use crate::lists::{flag_at, flagged, law_flagged, opt_text, texts, Args};
use crate::sorted_map::{ascending, SortedMap};
use crate::text::{
    assign, assignment, concat, concat3, find, has_prefix, has_suffix, is_whitespace, join, joined,
    law_first_piece, law_one_piece, law_trimmed, law_trimmed_end, law_trimmed_start, pieces, same,
    slice_text, split, to_chars, trim, trimmed, trimmed_start, CharClass,
};
use vstd::prelude::*;

verus! {

/// A container matched by its labels.
pub struct FoundContainer {
    pub id: String,
    pub running: bool,
}

/// The `key=value` texts of the entries of a map, in order.
pub open spec fn assignments(entries: Seq<(String, String)>) -> Seq<Seq<char>> {
    entries.map_values(|e: (String, String)| assignment(e.0@, e.1@))
}

/// The entries of a map as `key=value` texts.
pub fn assignment_list(map: &SortedMap<String>) -> (r: Vec<String>)
    ensures
        texts(r@) == assignments(map.entries()),
        ascending(map.entries()),
{
    let mut r: Vec<String> = Vec::new();
    let mut i: usize = 0;
    let n = map.len();
    while i < n
        invariant
            i <= n == map.entries().len(),
            texts(r@) =~= assignments(map.entries()).take(i as int),
        decreases n - i,
    {
        let ghost before = r@;
        r.push(assign(map.key(i).as_str(), map.value(i).as_str()));
        assert(texts(r@) =~= texts(before).push(assignments(map.entries())[i as int]));
        i += 1;
    }
    assert(assignments(map.entries()).take(n as int) =~= assignments(map.entries()));
    r
}

/// Pairs as `key=value` texts.
pub fn pair_list(pairs: &Vec<(String, String)>) -> (r: Vec<String>)
    ensures
        texts(r@) == assignments(pairs@),
{
    let mut r: Vec<String> = Vec::new();
    let mut i: usize = 0;
    while i < pairs.len()
        invariant
            i <= pairs@.len(),
            texts(r@) =~= assignments(pairs@).take(i as int),
        decreases pairs@.len() - i,
    {
        let ghost before = r@;
        r.push(assign(pairs[i].0.as_str(), pairs[i].1.as_str()));
        assert(texts(r@) =~= texts(before).push(assignments(pairs@)[i as int]));
        i += 1;
    }
    assert(assignments(pairs@).take(i as int) =~= assignments(pairs@));
    r
}

/// The arguments of `docker build`.
pub open spec fn build_line(
    context: Seq<char>,
    dockerfile: Seq<char>,
    tag: Seq<char>,
    build_args: Seq<Seq<char>>,
    target: Option<Seq<char>>,
    cache_from: Seq<Seq<char>>,
    extra_options: Seq<Seq<char>>,
) -> Seq<Seq<char>> {
    seq!["build"@, "-f"@, dockerfile, "-t"@, tag] + flagged("--build-arg"@, build_args) + (
    match target {
        Some(t) => seq!["--target"@, t],
        None => seq![],
    }) + flagged("--cache-from"@, cache_from) + extra_options + seq![context]
}

/// The command line that builds an image from a Dockerfile and tags it `tag`.
pub fn build(
    context: &str,
    dockerfile: &str,
    tag: &str,
    build_args: &SortedMap<String>,
    target: &Option<String>,
    cache_from: &Vec<String>,
    extra_options: &Vec<String>,
) -> (r: Vec<String>)
    ensures
        texts(r@) == build_line(
            context@,
            dockerfile@,
            tag@,
            assignments(build_args.entries()),
            opt_text(*target),
            texts(cache_from@),
            texts(extra_options@),
        ),
        ascending(build_args.entries()),
{
    let mut args = Args::new();
    args.add_text("build");
    args.add_flag("-f", dockerfile);
    args.add_flag("-t", tag);
    let ghost start = args@;
    assert(start =~= seq!["build"@, "-f"@, dockerfile@, "-t"@, tag@]);
    args.add_flags("--build-arg", &assignment_list(build_args));
    let ghost with_args = args@;
    if let Some(t) = target {
        args.add_flag("--target", t.as_str());
    }
    assert(args@ =~= with_args + (match opt_text(*target) {
        Some(t) => seq!["--target"@, t],
        None => seq![],
    }));
    args.add_flags("--cache-from", cache_from);
    args.add_list(extra_options);
    let ghost before = args@;
    args.add_text(context);
    assert(args@ =~= before + seq![context@]);
    args.into_list()
}

/// The command line that runs a container with the given arguments.
pub fn run(run_args: &Vec<String>) -> (r: Vec<String>)
    ensures
        texts(r@) == seq!["run"@] + texts(run_args@),
{
    let mut args = Args::new();
    args.add_text("run");
    assert(args@ =~= seq!["run"@]);
    args.add_list(run_args);
    args.into_list()
}

/// The filters by which `docker ps` finds the containers that carry the labels.
pub open spec fn label_filters(labels: Seq<(String, String)>) -> Seq<Seq<char>> {
    labels.map_values(|l: (String, String)| "label="@ + assignment(l.0@, l.1@))
}

/// The arguments of `docker ps` that list the containers with all of the labels, newest first,
/// one by line: the id, a tab and the state.
pub open spec fn find_line(labels: Seq<(String, String)>) -> Seq<Seq<char>> {
    seq!["ps"@, "-a"@, "--no-trunc"@, "--format"@, "{{.ID}}\t{{.State}}"@] + flagged(
        "--filter"@,
        label_filters(labels),
    )
}

/// The command line that finds the containers carrying the given label key=value pairs.
pub fn find_by_labels(labels: &Vec<(String, String)>) -> (r: Vec<String>)
    ensures
        texts(r@) == find_line(labels@),
{
    let mut args = Args::new();
    args.add_text("ps");
    args.add_text("-a");
    args.add_text("--no-trunc");
    args.add_flag("--format", "{{.ID}}\t{{.State}}");
    assert(args@ =~= seq!["ps"@, "-a"@, "--no-trunc"@, "--format"@, "{{.ID}}\t{{.State}}"@]);
    let mut filters: Vec<String> = Vec::new();
    let mut i: usize = 0;
    while i < labels.len()
        invariant
            i <= labels@.len(),
            texts(filters@) =~= label_filters(labels@).take(i as int),
        decreases labels@.len() - i,
    {
        let ghost before = filters@;
        let pair = assign(labels[i].0.as_str(), labels[i].1.as_str());
        filters.push(concat("label=", pair.as_str()));
        assert(texts(filters@) =~= texts(before).push(label_filters(labels@)[i as int]));
        i += 1;
    }
    assert(label_filters(labels@).take(i as int) =~= label_filters(labels@));
    args.add_flags("--filter", &filters);
    args.into_list()
}

/// What a command printed, without the white space around it.
pub fn captured(stdout: &str) -> (r: String)
    ensures
        r@ == trimmed(stdout@, CharClass::Whitespace),
{
    trim(stdout, CharClass::Whitespace)
}

/// The first line of a text, without its line ending.
pub open spec fn first_line(s: Seq<char>) -> Seq<char> {
    match s.index_of_first('\n') {
        Some(i) => if i > 0 && s[i - 1] == '\r' {
            s.take(i - 1)
        } else {
            s.take(i)
        },
        None => s,
    }
}

/// The container that stands in the first line of the output of `docker ps`, with whether it
/// runs; none where that line is blank.
pub open spec fn listed_container(out: Seq<char>) -> Option<(Seq<char>, bool)> {
    let line = first_line(out);
    if trimmed(line, CharClass::Whitespace).len() == 0 {
        None
    } else {
        let fields = pieces(line, '\t');
        Some((fields[0], fields.len() > 1 && fields[1] == "running"@))
    }
}

/// Reads the most recent match from the output of the command line of `find_by_labels`.
pub fn found_container(out: &str) -> (r: Option<FoundContainer>)
    ensures
        match r {
            Some(c) => listed_container(out@) == Some((c.id@, c.running)),
            None => listed_container(out@) is None,
        },
{
    let chars = to_chars(out);
    proof {
        chars@.index_of_first_ensures('\n');
    }
    let end = match find(&chars, '\n') {
        Some(i) => if i > 0 && chars[i - 1] == '\r' {
            i - 1
        } else {
            i
        },
        None => chars.len(),
    };
    let line = slice_text(&chars, 0, end);
    assert(line@ =~= first_line(out@));
    if trim(line.as_str(), CharClass::Whitespace).as_str().is_empty() {
        return None;
    }
    let fields = split(line.as_str(), '\t');
    let running = fields.len() > 1 && same(fields[1].as_str(), "running");
    assert(texts(fields@)[0] == fields@[0]@);
    assert(fields@.len() > 1 ==> texts(fields@)[1] == fields@[1]@);
    Some(FoundContainer { id: fields[0].clone(), running })
}

/// What is said where `docker run` prints no container id.
pub open spec fn no_container_id() -> Seq<char> {
    "docker run did not return a container id"@
}

/// The id of the new container from the output of `docker run`; the error is its text.
pub fn container_id(out: &str) -> (r: Result<String, String>)
    ensures
        match r {
            Ok(id) => out@.len() > 0 && id@ == out@,
            Err(e) => out@.len() == 0 && e@ == no_container_id(),
        },
{
    if out.is_empty() {
        Err("docker run did not return a container id".to_owned())
    } else {
        Ok(out.to_owned())
    }
}

/// The command line that starts a stopped container.
pub fn start(id: &str) -> (r: Vec<String>)
    ensures
        texts(r@) == seq!["start"@, id@],
{
    let mut args = Args::new();
    args.add_flag("start", id);
    assert(args@ =~= seq!["start"@, id@]);
    args.into_list()
}

/// `flag` where `set` holds, else nothing.
pub open spec fn switch(flag: Seq<char>, set: bool) -> Seq<Seq<char>> {
    if set {
        seq![flag]
    } else {
        seq![]
    }
}

/// `flag` and the value, if there is one.
pub open spec fn optional_flag(flag: Seq<char>, value: Option<Seq<char>>) -> Seq<Seq<char>> {
    match value {
        Some(v) => seq![flag, v],
        None => seq![],
    }
}

/// The arguments of `docker exec`.
pub open spec fn exec_line(
    id: Seq<char>,
    user: Option<Seq<char>>,
    cwd: Option<Seq<char>>,
    env: Seq<(String, String)>,
    cmd: Seq<Seq<char>>,
    interactive: bool,
    tty: bool,
) -> Seq<Seq<char>> {
    let named_user = match user {
        Some(u) => if u.len() > 0 {
            user
        } else {
            None
        },
        None => None,
    };
    seq!["exec"@] + switch("-i"@, interactive) + switch("-t"@, tty) + optional_flag(
        "-u"@,
        named_user,
    ) + flagged("-e"@, assignments(env)) + optional_flag("-w"@, cwd) + seq![id] + cmd
}

/// The command line that runs a command inside a container.
///
/// `interactive` attaches standard input to the command; `tty` allocates a pseudo-terminal. An
/// empty user stands for the container's own.
pub fn exec(
    id: &str,
    user: &Option<String>,
    cwd: &Option<String>,
    env: &Vec<(String, String)>,
    cmd: &Vec<String>,
    interactive: bool,
    tty: bool,
) -> (r: Vec<String>)
    ensures
        texts(r@) == exec_line(
            id@,
            opt_text(*user),
            opt_text(*cwd),
            env@,
            texts(cmd@),
            interactive,
            tty,
        ),
{
    let mut args = Args::new();
    args.add_text("exec");
    assert(args@ =~= seq!["exec"@]);
    let ghost before = args@;
    if interactive {
        args.add_text("-i");
    }
    assert(args@ =~= before + switch("-i"@, interactive));
    let ghost before = args@;
    if tty {
        args.add_text("-t");
    }
    assert(args@ =~= before + switch("-t"@, tty));
    let ghost before = args@;
    let ghost mut named_user: Option<Seq<char>> = None;
    if let Some(u) = user {
        if !u.as_str().is_empty() {
            args.add_flag("-u", u.as_str());
            proof {
                named_user = Some(u@);
            }
        }
    }
    assert(args@ =~= before + optional_flag("-u"@, named_user));
    args.add_flags("-e", &pair_list(env));
    let ghost before = args@;
    if let Some(w) = cwd {
        args.add_flag("-w", w.as_str());
    }
    assert(args@ =~= before + optional_flag("-w"@, opt_text(*cwd)));
    let ghost before = args@;
    args.add_text(id);
    assert(args@ =~= before + seq![id@]);
    args.add_list(cmd);
    args.into_list()
}

/// What is said of a docker command line that failed with the given status.
pub open spec fn run_failed(args: Seq<Seq<char>>, status: Seq<char>) -> Seq<char> {
    "docker "@ + joined(args, " "@) + " failed with "@ + status
}

/// What is said of a docker command line that failed with the given status.
pub fn failure(args: &Vec<String>, status: &str) -> (r: String)
    ensures
        r@ == run_failed(texts(args@), status@),
{
    let line = join(args, " ");
    let mut r = concat3("docker ", line.as_str(), " failed with ");
    r.append(status);
    r
}

// --- laws ---

/// An empty user is the same as none: the command runs as the container's own user.
pub proof fn law_empty_user_is_none(
    id: Seq<char>,
    cwd: Option<Seq<char>>,
    env: Seq<(String, String)>,
    cmd: Seq<Seq<char>>,
    interactive: bool,
    tty: bool,
)
    ensures
        exec_line(id, Some(seq![]), cwd, env, cmd, interactive, tty) == exec_line(
            id,
            None,
            cwd,
            env,
            cmd,
            interactive,
            tty,
        ),
{
}

/// Whatever command is run in a container, what stands before it on the command line does not
/// depend on it.
pub proof fn law_same_context(
    id: Seq<char>,
    user: Option<Seq<char>>,
    cwd: Option<Seq<char>>,
    env: Seq<(String, String)>,
    cmd: Seq<Seq<char>>,
    interactive: bool,
    tty: bool,
)
    ensures
        exec_line(id, user, cwd, env, cmd, interactive, tty) == exec_line(
            id,
            user,
            cwd,
            env,
            seq![],
            interactive,
            tty,
        ) + cmd,
{
    assert(exec_line(id, user, cwd, env, cmd, interactive, tty) =~= exec_line(
        id,
        user,
        cwd,
        env,
        seq![],
        interactive,
        tty,
    ) + cmd);
}

/// What stands where on the command line of a build: the Dockerfile and the tag, then each build
/// argument, the target if there is one, each image to take the cache from, the options, and the
/// context at the end.
pub proof fn law_build_line(
    context: Seq<char>,
    dockerfile: Seq<char>,
    tag: Seq<char>,
    build_args: Seq<Seq<char>>,
    target: Option<Seq<char>>,
    cache_from: Seq<Seq<char>>,
    extra_options: Seq<Seq<char>>,
)
    ensures
        ({
            let line = build_line(
                context,
                dockerfile,
                tag,
                build_args,
                target,
                cache_from,
                extra_options,
            );
            let at_target = 5int + 2 * build_args.len();
            let at_cache = at_target + if target is Some {
                2int
            } else {
                0
            };
            let at_options = at_cache + 2 * cache_from.len();
            &&& line[0] == "build"@
            &&& flag_at(line, 1, "-f"@, dockerfile)
            &&& flag_at(line, 3, "-t"@, tag)
            &&& forall|i: int|
                0 <= i < build_args.len() ==> flag_at(
                    line,
                    5 + 2 * i,
                    "--build-arg"@,
                    #[trigger] build_args[i],
                )
            &&& target matches Some(t) ==> flag_at(line, at_target, "--target"@, t)
            &&& forall|i: int|
                0 <= i < cache_from.len() ==> flag_at(
                    line,
                    at_cache + 2 * i,
                    "--cache-from"@,
                    #[trigger] cache_from[i],
                )
            &&& forall|i: int|
                0 <= i < extra_options.len() ==> line[at_options + i] == #[trigger] extra_options[i]
            &&& line.len() == at_options + extra_options.len() + 1
            &&& line.last() == context
        }),
{
    law_flagged("--build-arg"@, build_args);
    law_flagged("--cache-from"@, cache_from);
}

/// The containers that are looked for are those with each of the labels, whether they run or not.
pub proof fn law_find_line(labels: Seq<(String, String)>)
    ensures
        ({
            let line = find_line(labels);
            &&& line.len() == 5 + 2 * labels.len()
            &&& line[0] == "ps"@ && line[1] == "-a"@ && line[2] == "--no-trunc"@
            &&& line[3] == "--format"@ && line[4] == "{{.ID}}\t{{.State}}"@
            &&& forall|i: int|
                0 <= i < labels.len() ==> flag_at(
                    line,
                    5 + 2 * i,
                    "--filter"@,
                    "label="@ + (#[trigger] labels[i]).0@ + "="@ + labels[i].1@,
                )
        }),
{
    let filters = label_filters(labels);
    law_flagged("--filter"@, filters);
    assert forall|i: int| 0 <= i < labels.len() implies flag_at(
        find_line(labels),
        5 + 2 * i,
        "--filter"@,
        "label="@ + (#[trigger] labels[i]).0@ + "="@ + labels[i].1@,
    ) by {
        assert(filters[i] == "label="@ + assignment(labels[i].0@, labels[i].1@));
        assert(filters[i] =~= "label="@ + labels[i].0@ + "="@ + labels[i].1@);
        assert(flag_at(flagged("--filter"@, filters), 2 * i, "--filter"@, filters[i]));
    }
}

/// A line with an id and a state, separated by a tab, tells of a container with this id, which runs
/// where the state says so. Only the first line counts.
pub proof fn law_listed_container(id: Seq<char>, state: Seq<char>, more: Seq<char>)
    requires
        !id.contains('\t'),
        !id.contains('\n'),
        !state.contains('\t'),
        !state.contains('\n'),
        state.len() > 0 ==> state.last() != '\r',
        id.len() > 0,
        !is_whitespace(id[0]),
    ensures
        ({
            let line = id + seq!['\t'] + state;
            &&& listed_container(line) == Some((id, state == "running"@))
            &&& listed_container(line + seq!['\n'] + more) == Some((id, state == "running"@))
            &&& listed_container(line + seq!['\r', '\n'] + more) == Some((id, state == "running"@))
        }),
{
    let line = id + seq!['\t'] + state;
    assert(!line.contains('\n')) by {
        if line.contains('\n') {
            let i = line.index_of('\n');
            if i < id.len() {
                assert(id[i] == '\n');
            } else if i > id.len() {
                assert(state[i - id.len() - 1] == '\n');
            }
        }
    }
    assert(line.last() != '\r') by {
        if state.len() > 0 {
            assert(line.last() == state.last());
        } else {
            assert(line.last() == '\t');
        }
    }
    law_first_line(line, more);
    law_trimmed_start(line, CharClass::Whitespace);
    let start = trimmed_start(line, CharClass::Whitespace);
    assert(start =~= line) by {
        if start.len() < line.len() {
            assert(CharClass::Whitespace.has_char(line[0]));
        }
    }
    law_trimmed_end(line, CharClass::Whitespace);
    let kept = trimmed(line, CharClass::Whitespace);
    assert(kept.len() > 0) by {
        if kept.len() == 0 {
            assert(CharClass::Whitespace.has_char(line[0]));
        }
    }
    law_first_piece(id, '\t', state);
    law_one_piece(state, '\t');
    assert(pieces(line, '\t') =~= seq![id, state]);
}

/// The first line of a text is what stands before its first line break.
pub proof fn law_first_line(line: Seq<char>, more: Seq<char>)
    requires
        !line.contains('\n'),
        line.len() > 0 ==> line.last() != '\r',
    ensures
        first_line(line) == line,
        first_line(line + seq!['\n'] + more) == line,
        first_line(line + seq!['\r', '\n'] + more) == line,
{
    line.index_of_first_ensures('\n');
    let n = line.len() as int;
    let a = line + seq!['\n'] + more;
    a.index_of_first_ensures('\n');
    assert(a[n] == '\n');
    let i = a.index_of_first('\n')->0;
    if i < n {
        assert(a[i] == line[i]);
    }
    if n > 0 {
        assert(a[n - 1] == line.last());
    }
    assert(a.take(n) =~= line);
    let b = line + seq!['\r', '\n'] + more;
    b.index_of_first_ensures('\n');
    assert(b[n + 1] == '\n');
    let j = b.index_of_first('\n')->0;
    if j < n {
        assert(b[j] == line[j]);
    } else if j == n {
        assert(b[n] == '\r');
    }
    assert(b[n] == '\r');
    assert(b.take(n) =~= line);
}

/// A blank first line tells of no container.
pub proof fn law_no_container(out: Seq<char>)
    requires
        forall|i: int| 0 <= i < out.len() ==> is_whitespace(#[trigger] out[i]),
    ensures
        listed_container(out) is None,
{
    let line = first_line(out);
    out.index_of_first_ensures('\n');
    assert forall|i: int| 0 <= i < line.len() implies CharClass::Whitespace.has_char(
        #[trigger] line[i],
    ) by {
        assert(line[i] == out[i]);
    }
    law_trimmed(line, seq![], seq![], CharClass::Whitespace);
    assert(line + Seq::<char>::empty() + Seq::<char>::empty() =~= line);
}

/// What stands where on the command line of a command in a container: the switches, the user if one
/// is named, the environment, the directory, the container, and the command at the end.
pub proof fn law_exec_line(
    id: Seq<char>,
    user: Option<Seq<char>>,
    cwd: Option<Seq<char>>,
    env: Seq<(String, String)>,
    cmd: Seq<Seq<char>>,
    interactive: bool,
    tty: bool,
)
    ensures
        ({
            let line = exec_line(id, user, cwd, env, cmd, interactive, tty);
            let at_tty = 1 + if interactive {
                1int
            } else {
                0
            };
            let at_user = at_tty + if tty {
                1int
            } else {
                0
            };
            let named = user is Some && user->0.len() > 0;
            let at_env = at_user + if named {
                2int
            } else {
                0
            };
            let at_cwd = at_env + 2 * env.len();
            let at_id = at_cwd + if cwd is Some {
                2int
            } else {
                0
            };
            &&& line[0] == "exec"@
            &&& interactive ==> line[1] == "-i"@
            &&& tty ==> line[at_tty] == "-t"@
            &&& named ==> flag_at(line, at_user, "-u"@, user->0)
            &&& forall|i: int|
                0 <= i < env.len() ==> flag_at(
                    line,
                    at_env + 2 * i,
                    "-e"@,
                    (#[trigger] env[i]).0@ + "="@ + env[i].1@,
                )
            &&& cwd matches Some(w) ==> flag_at(line, at_cwd, "-w"@, w)
            &&& line[at_id] == id
            &&& forall|i: int| 0 <= i < cmd.len() ==> line[at_id + 1 + i] == #[trigger] cmd[i]
            &&& line.len() == at_id + 1 + cmd.len()
        }),
{
    let values = assignments(env);
    law_flagged("-e"@, values);
    assert forall|i: int| 0 <= i < env.len() implies values[i] == (#[trigger] env[i]).0@ + "="@
        + env[i].1@ by {}
}

/// What is said of a command line that failed begins with it, its arguments separated by spaces,
/// and ends with the status.
pub proof fn law_failure_text(args: Seq<Seq<char>>, status: Seq<char>)
    ensures
        has_prefix(run_failed(args, status), "docker "@ + joined(args, " "@)),
        has_suffix(run_failed(args, status), status),
        run_failed(args, status).len() == "docker "@.len() + joined(args, " "@).len()
            + " failed with "@.len() + status.len(),
{
    let text = run_failed(args, status);
    let head = "docker "@ + joined(args, " "@);
    assert(text.take(head.len() as int) =~= head);
    assert(text.skip(text.len() - status.len()) =~= status);
}

} // verus!

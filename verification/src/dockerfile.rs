//! The Dockerfile of an image that is extended by features.
use crate::features::ResolvedFeature;
use crate::json::{member_models, Json, JsonView};
use crate::lists::text_pairs;
use crate::options::{value_text, value_to_string};
use crate::text::{
    concat3, law_replaced_add, law_replaced_nothing, replace, replaced,
};
use vstd::prelude::*;

verus! {

/// A value for a Dockerfile `ENV KEY=VALUE`: in double quotes, so that references such as
/// `${PATH}` are still expanded, with the quotes in it escaped.
pub open spec fn env_quoted(v: Seq<char>) -> Seq<char> {
    "\""@ + replaced(v, '"', "\\\""@) + "\""@
}

/// Quotes a value for a Dockerfile `ENV KEY=VALUE`.
pub fn env_value(v: &str) -> (r: String)
    ensures
        r@ == env_quoted(v@),
{
    let escaped = replace(v, '"', "\\\"");
    concat3("\"", escaped.as_str(), "\"")
}

/// A value as one word of a shell script: in single quotes, each single quote in it written
/// between two quoted parts.
pub open spec fn shell_quoted(s: Seq<char>) -> Seq<char> {
    "'"@ + replaced(s, '\'', "'\\''"@) + "'"@
}

/// Single-quotes a value for use inside the generated `RUN` shell script.
pub fn sh_quote(s: &str) -> (r: String)
    ensures
        r@ == shell_quoted(s@),
{
    let escaped = replace(s, '\'', "'\\''");
    concat3("'", escaped.as_str(), "'")
}

/// The `ENV` lines of a feature's `containerEnv`.
pub open spec fn env_lines(env: Seq<(Seq<char>, JsonView)>) -> Seq<char>
    decreases env.len(),
{
    if env.len() == 0 {
        seq![]
    } else {
        let (key, value) = env.last();
        env_lines(env.drop_last()) + "ENV "@ + key + "="@ + env_quoted(value_text(value)) + "\n"@
    }
}

/// The lines of the script that export a feature's option values.
pub open spec fn export_lines(vars: Seq<(Seq<char>, Seq<char>)>) -> Seq<char>
    decreases vars.len(),
{
    if vars.len() == 0 {
        seq![]
    } else {
        let (key, value) = vars.last();
        export_lines(vars.drop_last()) + "    && export "@ + key + "="@ + shell_quoted(value)
            + " \\\n"@
    }
}

/// The part of the Dockerfile that installs a feature: its environment first, so that its own
/// script and later features see it, then its files, then the run of its script.
pub open spec fn feature_section(
    feature: ResolvedFeature,
    remote_user: Seq<char>,
    container_user: Seq<char>,
) -> Seq<char> {
    let folder = feature.folder@;
    let ru = shell_quoted(remote_user);
    let cu = shell_quoted(container_user);
    env_lines(member_models(feature.metadata.container_env@))
    // The files.
     + "COPY dc-features/"@ + folder + " /tmp/dc-features/"@ + folder + "\n"@
    // The script.
     + "RUN cd /tmp/dc-features/"@ + folder + " \\\n    && chmod +x ./install.sh \\\n"@
        + "    && export _REMOTE_USER="@ + ru + " _CONTAINER_USER="@ + cu + " \\\n"@
        + "    && export _REMOTE_USER_HOME=\"$(getent passwd "@ + ru
        + " | cut -d: -f6)\" \\\n"@ + "    && export _CONTAINER_USER_HOME=\"$(getent passwd "@
        + cu + " | cut -d: -f6)\" \\\n"@ + export_lines(text_pairs(feature.option_vars@))
        + "    && ./install.sh \\\n    && rm -rf /tmp/dc-features/"@ + folder + "\n\n"@
}

/// The parts of the Dockerfile that install the features, in order.
pub open spec fn feature_sections(
    features: Seq<ResolvedFeature>,
    remote_user: Seq<char>,
    container_user: Seq<char>,
) -> Seq<char>
    decreases features.len(),
{
    if features.len() == 0 {
        seq![]
    } else {
        feature_sections(features.drop_last(), remote_user, container_user) + feature_section(
            features.last(),
            remote_user,
            container_user,
        )
    }
}

/// The Dockerfile that extends the base image by the features.
pub open spec fn dockerfile_text(
    base_image: Seq<char>,
    features: Seq<ResolvedFeature>,
    remote_user: Seq<char>,
    container_user: Seq<char>,
) -> Seq<char> {
    "FROM "@ + base_image + "\n\nUSER root\n\n"@ + feature_sections(
        features,
        remote_user,
        container_user,
    )
}

/// The features in an order.
pub open spec fn in_order(features: Seq<ResolvedFeature>, order: Seq<usize>) -> Seq<
    ResolvedFeature,
> {
    order.map_values(|i: usize| features[i as int])
}

fn add_env_lines(out: &mut String, env: &Vec<(String, Json)>)
    ensures
        final(out)@ == old(out)@ + env_lines(member_models(env@)),
{
    let ghost all = member_models(env@);
    let mut i: usize = 0;
    assert(out@ =~= old(out)@ + env_lines(all.take(0)));
    while i < env.len()
        invariant
            i <= env@.len(),
            all == member_models(env@),
            out@ == old(out)@ + env_lines(all.take(i as int)),
        decreases env@.len() - i,
    {
        assert(all.take(i + 1).drop_last() =~= all.take(i as int));
        assert(all[i as int] == (env@[i as int].0@, env@[i as int].1.model()));
        let text = value_to_string(&env[i].1);
        let value = env_value(text.as_str());
        out.append("ENV ");
        out.append(env[i].0.as_str());
        out.append("=");
        out.append(value.as_str());
        out.append("\n");
        assert(out@ =~= old(out)@ + env_lines(all.take(i + 1)));
        i += 1;
    }
    assert(all.take(i as int) =~= all);
}

fn add_export_lines(out: &mut String, vars: &Vec<(String, String)>)
    ensures
        final(out)@ == old(out)@ + export_lines(text_pairs(vars@)),
{
    let ghost all = text_pairs(vars@);
    let mut i: usize = 0;
    assert(out@ =~= old(out)@ + export_lines(all.take(0)));
    while i < vars.len()
        invariant
            i <= vars@.len(),
            all == text_pairs(vars@),
            out@ == old(out)@ + export_lines(all.take(i as int)),
        decreases vars@.len() - i,
    {
        assert(all.take(i + 1).drop_last() =~= all.take(i as int));
        assert(all[i as int] == (vars@[i as int].0@, vars@[i as int].1@));
        let value = sh_quote(vars[i].1.as_str());
        out.append("    && export ");
        out.append(vars[i].0.as_str());
        out.append("=");
        out.append(value.as_str());
        out.append(" \\\n");
        assert(out@ =~= old(out)@ + export_lines(all.take(i + 1)));
        i += 1;
    }
    assert(all.take(i as int) =~= all);
}

fn add_feature_section(
    out: &mut String,
    feature: &ResolvedFeature,
    remote_user: &str,
    container_user: &str,
)
    ensures
        final(out)@ == old(out)@ + feature_section(*feature, remote_user@, container_user@),
{
    let ru = sh_quote(remote_user);
    let cu = sh_quote(container_user);
    let folder = feature.folder.as_str();
    let mut section = String::new();
    add_env_lines(&mut section, &feature.metadata.container_env);
    assert(section@ =~= env_lines(member_models(feature.metadata.container_env@)));
    section.append("COPY dc-features/");
    section.append(folder);
    section.append(" /tmp/dc-features/");
    section.append(folder);
    section.append("\n");
    section.append("RUN cd /tmp/dc-features/");
    section.append(folder);
    section.append(" \\\n    && chmod +x ./install.sh \\\n");
    section.append("    && export _REMOTE_USER=");
    section.append(ru.as_str());
    section.append(" _CONTAINER_USER=");
    section.append(cu.as_str());
    section.append(" \\\n");
    section.append("    && export _REMOTE_USER_HOME=\"$(getent passwd ");
    section.append(ru.as_str());
    section.append(" | cut -d: -f6)\" \\\n");
    section.append("    && export _CONTAINER_USER_HOME=\"$(getent passwd ");
    section.append(cu.as_str());
    section.append(" | cut -d: -f6)\" \\\n");
    add_export_lines(&mut section, &feature.option_vars);
    section.append("    && ./install.sh \\\n    && rm -rf /tmp/dc-features/");
    section.append(folder);
    section.append("\n\n");
    out.append(section.as_str());
}

/// Renders the Dockerfile that extends the base image by the features, in the given order.
pub fn render_dockerfile(
    base_image: &str,
    features: &Vec<ResolvedFeature>,
    order: &Vec<usize>,
    remote_user: &str,
    container_user: &str,
) -> (r: String)
    requires
        forall|k: int| 0 <= k < order@.len() ==> #[trigger] order@[k] < features@.len(),
    ensures
        r@ == dockerfile_text(
            base_image@,
            in_order(features@, order@),
            remote_user@,
            container_user@,
        ),
{
    let ghost ordered = in_order(features@, order@);
    let mut out = concat3("FROM ", base_image, "\n\nUSER root\n\n");
    let ghost head = out@;
    let mut k: usize = 0;
    assert(out@ =~= head + feature_sections(ordered.take(0), remote_user@, container_user@));
    while k < order.len()
        invariant
            k <= order@.len(),
            ordered == in_order(features@, order@),
            forall|k: int| 0 <= k < order@.len() ==> #[trigger] order@[k] < features@.len(),
            out@ == head + feature_sections(
                ordered.take(k as int),
                remote_user@,
                container_user@,
            ),
        decreases order@.len() - k,
    {
        assert(ordered.take(k + 1).drop_last() =~= ordered.take(k as int));
        add_feature_section(&mut out, &features[order[k]], remote_user, container_user);
        assert(out@ =~= head + feature_sections(
            ordered.take(k + 1),
            remote_user@,
            container_user@,
        ));
        k += 1;
    }
    assert(ordered.take(k as int) =~= ordered);
    out
}

// --- laws ---

/// The text that a shell reads from a word of quoted parts and escaped characters: between single
/// quotes every character stands for itself, and outside of them a backslash makes the next one
/// do so. `None` where the word is of another kind or is not closed.
pub open spec fn shell_word(s: Seq<char>, quoted: bool) -> Option<Seq<char>>
    decreases s.len(),
{
    if s.len() == 0 {
        if quoted {
            None
        } else {
            Some(seq![])
        }
    } else if s[0] == '\'' {
        shell_word(s.skip(1), !quoted)
    } else if quoted {
        match shell_word(s.skip(1), true) {
            Some(rest) => Some(seq![s[0]] + rest),
            None => None,
        }
    } else if s[0] == '\\' && s.len() > 1 {
        match shell_word(s.skip(2), false) {
            Some(rest) => Some(seq![s[1]] + rest),
            None => None,
        }
    } else {
        None
    }
}

/// A shell reads a quoted text back as it was.
pub proof fn law_shell_reads_back(s: Seq<char>)
    ensures
        shell_word(shell_quoted(s), false) == Some(s),
{
    reveal_strlit("'");
    let inner = replaced(s, '\'', "'\\''"@) + "'"@;
    assert(shell_quoted(s) =~= "'"@ + inner);
    assert(shell_quoted(s).skip(1) =~= inner);
    lemma_reads_inner(s);
}

/// Read from behind the opening quote.
proof fn lemma_reads_inner(s: Seq<char>)
    ensures
        shell_word(replaced(s, '\'', "'\\''"@) + "'"@, true) == Some(s),
    decreases s.len(),
{
    reveal_strlit("'");
    reveal_strlit("'\\''");
    let with = "'\\''"@;
    let inner = replaced(s, '\'', with) + "'"@;
    if s.len() == 0 {
        assert(inner =~= "'"@);
        assert(inner.skip(1) =~= seq![]);
        assert(shell_word(inner.skip(1), false) == Some(s));
    } else {
        let rest = s.skip(1);
        assert(s =~= seq![s[0]] + rest);
        law_replaced_add(seq![s[0]], rest, '\'', with);
        lemma_reads_inner(rest);
        let after = replaced(rest, '\'', with) + "'"@;
        let head = replaced(seq![s[0]], '\'', with);
        assert(seq![s[0]].drop_last() =~= seq![]);
        assert(replaced(seq![s[0]].drop_last(), '\'', with) =~= seq![]);
        assert(inner =~= head + after);
        if s[0] == '\'' {
            assert(head =~= with);
            // The quote is closed, an escaped quote follows, and the quote is opened again.
            assert(inner.skip(1)[0] == '\\');
            assert(inner.skip(1)[1] == '\'');
            assert(inner.skip(1).skip(2)[0] == '\'');
            assert(inner.skip(1).skip(2).skip(1) =~= after);
            assert(shell_word(inner.skip(1).skip(2), false) == shell_word(after, true));
            assert(shell_word(inner.skip(1), false) == Some(seq!['\''] + rest));
        } else {
            assert(head =~= seq![s[0]]);
            assert(inner.skip(1) =~= after);
        }
    }
}

/// A value without quotes stands as it is between the quotes of an `ENV` line.
pub proof fn law_plain_env_value(v: Seq<char>)
    requires
        !v.contains('"'),
    ensures
        env_quoted(v) == "\""@ + v + "\""@,
{
    law_replaced_nothing(v, '"', "\\\""@);
}

/// The features are installed one after the other: what comes first is not changed by what comes
/// after it.
pub proof fn law_sections_in_order(
    first: Seq<ResolvedFeature>,
    second: Seq<ResolvedFeature>,
    remote_user: Seq<char>,
    container_user: Seq<char>,
)
    ensures
        feature_sections(first + second, remote_user, container_user) == feature_sections(
            first,
            remote_user,
            container_user,
        ) + feature_sections(second, remote_user, container_user),
    decreases second.len(),
{
    let all = first + second;
    if second.len() == 0 {
        assert(all =~= first);
        assert(feature_sections(second, remote_user, container_user) =~= seq![]);
    } else {
        assert(all.drop_last() =~= first + second.drop_last());
        law_sections_in_order(first, second.drop_last(), remote_user, container_user);
    }
    assert(feature_sections(all, remote_user, container_user) =~= feature_sections(
        first,
        remote_user,
        container_user,
    ) + feature_sections(second, remote_user, container_user));
}

/// The text that a Dockerfile reads from a value in double quotes, from behind the opening one: a
/// quote behind a backslash stands for itself, any other closes the value. `None` where it is not
/// closed, or something follows.
pub open spec fn env_word(s: Seq<char>) -> Option<Seq<char>>
    decreases s.len(),
{
    if s.len() == 0 {
        None
    } else if s[0] == '"' {
        if s.len() == 1 {
            Some(seq![])
        } else {
            None
        }
    } else if s[0] == '\\' && s.len() > 1 && s[1] == '"' {
        match env_word(s.skip(2)) {
            Some(rest) => Some(seq!['"'] + rest),
            None => None,
        }
    } else {
        match env_word(s.skip(1)) {
            Some(rest) => Some(seq![s[0]] + rest),
            None => None,
        }
    }
}

/// A Dockerfile reads a quoted value back as it was, unless it ends in a backslash, which would
/// stand before the closing quote.
pub proof fn law_env_value_reads_back(v: Seq<char>)
    requires
        v.len() > 0 ==> v.last() != '\\',
    ensures
        env_quoted(v)[0] == '"',
        env_word(env_quoted(v).skip(1)) == Some(v),
{
    reveal_strlit("\"");
    let inner = replaced(v, '"', "\\\""@) + "\""@;
    assert(env_quoted(v) =~= "\""@ + inner);
    assert(env_quoted(v).skip(1) =~= inner);
    lemma_env_reads_inner(v);
}

proof fn lemma_env_reads_inner(v: Seq<char>)
    requires
        v.len() > 0 ==> v.last() != '\\',
    ensures
        env_word(replaced(v, '"', "\\\""@) + "\""@) == Some(v),
    decreases v.len(),
{
    reveal_strlit("\"");
    reveal_strlit("\\\"");
    let with = "\\\""@;
    let inner = replaced(v, '"', with) + "\""@;
    if v.len() == 0 {
        assert(inner =~= seq!['"']);
        assert(v =~= seq![]);
    } else {
        let rest = v.skip(1);
        assert(v =~= seq![v[0]] + rest);
        if rest.len() > 0 {
            assert(rest.last() == v.last());
        }
        law_replaced_add(seq![v[0]], rest, '"', with);
        lemma_env_reads_inner(rest);
        let after = replaced(rest, '"', with) + "\""@;
        let head = replaced(seq![v[0]], '"', with);
        assert(seq![v[0]].drop_last() =~= seq![]);
        assert(replaced(seq![v[0]].drop_last(), '"', with) =~= seq![]);
        assert(inner =~= head + after);
        if v[0] == '"' {
            assert(head =~= with);
            assert(inner[0] == '\\' && inner[1] == '"');
            assert(inner.skip(2) =~= after);
        } else {
            assert(head =~= seq![v[0]]);
            assert(inner.skip(1) =~= after);
            assert(inner[0] == v[0]);
            // A backslash is read as itself, since no bare quote follows it.
            if v[0] == '\\' {
                assert(rest.len() > 0);
                assert(rest =~= seq![rest[0]] + rest.skip(1));
                law_replaced_add(seq![rest[0]], rest.skip(1), '"', with);
                let next = replaced(seq![rest[0]], '"', with);
                assert(seq![rest[0]].drop_last() =~= seq![]);
                assert(replaced(seq![rest[0]].drop_last(), '"', with) =~= seq![]);
                if rest[0] == '"' {
                    assert(next =~= with);
                } else {
                    assert(next =~= seq![rest[0]]);
                }
                assert(after[0] == next[0]);
                assert(inner[1] == after[0]);
                assert(inner[1] != '"');
            }
        }
    }
}

/// What one more variable adds to the environment of a feature, and one more option to its exports:
/// a line of its own at the end.
pub proof fn law_one_more_line(
    env: Seq<(Seq<char>, JsonView)>,
    vars: Seq<(Seq<char>, Seq<char>)>,
    key: Seq<char>,
    json: JsonView,
    value: Seq<char>,
)
    ensures
        env_lines(seq![]).len() == 0,
        env_lines(env.push((key, json))) == env_lines(env) + "ENV "@ + key + "="@ + env_quoted(
            value_text(json),
        ) + "\n"@,
        export_lines(seq![]).len() == 0,
        export_lines(vars.push((key, value))) == export_lines(vars) + "    && export "@ + key + "="@
            + shell_quoted(value) + " \\\n"@,
{
    assert(env.push((key, json)).drop_last() =~= env);
    assert(vars.push((key, value)).drop_last() =~= vars);
}

/// The part of a feature sets its environment, copies its files, and runs its script, before which
/// its options are exported and after which its files are removed.
pub proof fn law_feature_section(
    feature: ResolvedFeature,
    remote_user: Seq<char>,
    container_user: Seq<char>,
) -> (users: Seq<char>)
    ensures
        ({
            let folder = feature.folder@;
            let copy = "COPY dc-features/"@ + folder + " /tmp/dc-features/"@ + folder + "\n"@;
            let enter = "RUN cd /tmp/dc-features/"@ + folder
                + " \\\n    && chmod +x ./install.sh \\\n"@;
            let leave = "    && ./install.sh \\\n    && rm -rf /tmp/dc-features/"@ + folder
                + "\n\n"@;
            let exports = export_lines(text_pairs(feature.option_vars@));
            &&& feature_section(feature, remote_user, container_user) == env_lines(
                member_models(feature.metadata.container_env@),
            ) + copy + enter + users + exports + leave
            &&& users == "    && export _REMOTE_USER="@ + shell_quoted(remote_user)
                + " _CONTAINER_USER="@ + shell_quoted(container_user) + " \\\n"@
                + "    && export _REMOTE_USER_HOME=\"$(getent passwd "@ + shell_quoted(remote_user)
                + " | cut -d: -f6)\" \\\n"@
                + "    && export _CONTAINER_USER_HOME=\"$(getent passwd "@ + shell_quoted(
                container_user,
            ) + " | cut -d: -f6)\" \\\n"@
        }),
{
    let folder = feature.folder@;
    let ru = shell_quoted(remote_user);
    let cu = shell_quoted(container_user);
    let copy = "COPY dc-features/"@ + folder + " /tmp/dc-features/"@ + folder + "\n"@;
    let enter = "RUN cd /tmp/dc-features/"@ + folder + " \\\n    && chmod +x ./install.sh \\\n"@;
    let leave = "    && ./install.sh \\\n    && rm -rf /tmp/dc-features/"@ + folder + "\n\n"@;
    let users = "    && export _REMOTE_USER="@ + ru + " _CONTAINER_USER="@ + cu + " \\\n"@
        + "    && export _REMOTE_USER_HOME=\"$(getent passwd "@ + ru + " | cut -d: -f6)\" \\\n"@
        + "    && export _CONTAINER_USER_HOME=\"$(getent passwd "@ + cu
        + " | cut -d: -f6)\" \\\n"@;
    let env = env_lines(member_models(feature.metadata.container_env@));
    let exports = export_lines(text_pairs(feature.option_vars@));
    let front = env + "COPY dc-features/"@ + folder + " /tmp/dc-features/"@ + folder + "\n"@;
    assert(front =~= env + copy);
    let entered = front + "RUN cd /tmp/dc-features/"@ + folder
        + " \\\n    && chmod +x ./install.sh \\\n"@;
    assert(entered =~= env + copy + enter);
    let told = entered + "    && export _REMOTE_USER="@ + ru + " _CONTAINER_USER="@ + cu + " \\\n"@
        + "    && export _REMOTE_USER_HOME=\"$(getent passwd "@ + ru + " | cut -d: -f6)\" \\\n"@
        + "    && export _CONTAINER_USER_HOME=\"$(getent passwd "@ + cu
        + " | cut -d: -f6)\" \\\n"@;
    assert(told =~= entered + users);
    let all = told + exports + "    && ./install.sh \\\n    && rm -rf /tmp/dc-features/"@ + folder
        + "\n\n"@;
    assert(all =~= told + exports + leave);
    assert(feature_section(feature, remote_user, container_user) == all);
    users
}

/// Every option of a feature is exported to its script under its name, with a value that the shell
/// reads as it is.
pub proof fn law_option_is_exported(
    feature: ResolvedFeature,
    remote_user: Seq<char>,
    container_user: Seq<char>,
    i: int,
) -> (parts: (Seq<char>, Seq<char>, Seq<char>))
    requires
        0 <= i < feature.option_vars@.len(),
    ensures
        ({
            let (before, word, after) = parts;
            &&& feature_section(feature, remote_user, container_user) == before
                + "    && export "@ + feature.option_vars@[i].0@ + "="@ + word + " \\\n"@ + after
            &&& shell_word(word, false) == Some(feature.option_vars@[i].1@)
        }),
{
    let vars = text_pairs(feature.option_vars@);
    let folder = feature.folder@;
    let rest = lemma_export_at(vars, i);
    let users = law_feature_section(feature, remote_user, container_user);
    let word = shell_quoted(vars[i].1);
    law_shell_reads_back(vars[i].1);
    let env = env_lines(member_models(feature.metadata.container_env@));
    let copy = "COPY dc-features/"@ + folder + " /tmp/dc-features/"@ + folder + "\n"@;
    let enter = "RUN cd /tmp/dc-features/"@ + folder + " \\\n    && chmod +x ./install.sh \\\n"@;
    let leave = "    && ./install.sh \\\n    && rm -rf /tmp/dc-features/"@ + folder + "\n\n"@;
    let front = env + copy + enter + users;
    let before = front + export_lines(vars.take(i));
    let after = rest + leave;
    assert(front + export_lines(vars) + leave =~= before + "    && export "@ + vars[i].0 + "="@
        + word + " \\\n"@ + after);
    (before, word, after)
}

proof fn lemma_export_at(vars: Seq<(Seq<char>, Seq<char>)>, i: int) -> (rest: Seq<char>)
    requires
        0 <= i < vars.len(),
    ensures
        export_lines(vars) == export_lines(vars.take(i)) + "    && export "@ + vars[i].0 + "="@
            + shell_quoted(vars[i].1) + " \\\n"@ + rest,
    decreases vars.len(),
{
    if i == vars.len() - 1 {
        assert(vars.drop_last() =~= vars.take(i));
        seq![]
    } else {
        let before = vars.drop_last();
        let rest = lemma_export_at(before, i);
        assert(before.take(i) =~= vars.take(i));
        let line = "    && export "@ + vars.last().0 + "="@ + shell_quoted(vars.last().1)
            + " \\\n"@;
        assert(export_lines(vars) =~= export_lines(before) + line);
        assert(export_lines(before) + line =~= export_lines(vars.take(i)) + "    && export "@
            + vars[i].0 + "="@ + shell_quoted(vars[i].1) + " \\\n"@ + (rest + line));
        rest + line
    }
}

/// The Dockerfile begins with the base image and the user that installs; the features follow, one
/// more of them at the end.
pub proof fn law_dockerfile_text(
    base_image: Seq<char>,
    features: Seq<ResolvedFeature>,
    feature: ResolvedFeature,
    remote_user: Seq<char>,
    container_user: Seq<char>,
)
    ensures
        dockerfile_text(base_image, seq![], remote_user, container_user) == "FROM "@ + base_image
            + "\n\nUSER root\n\n"@,
        dockerfile_text(base_image, features.push(feature), remote_user, container_user)
            == dockerfile_text(base_image, features, remote_user, container_user) + feature_section(
            feature,
            remote_user,
            container_user,
        ),
{
    assert(features.push(feature).drop_last() =~= features);
    assert(feature_sections(seq![], remote_user, container_user) =~= seq![]);
    assert(dockerfile_text(base_image, seq![], remote_user, container_user) =~= "FROM "@
        + base_image + "\n\nUSER root\n\n"@);
    assert(dockerfile_text(base_image, features.push(feature), remote_user, container_user)
        =~= dockerfile_text(base_image, features, remote_user, container_user) + feature_section(
        feature,
        remote_user,
        container_user,
    ));
}

/// The features in an order are all of those that it names, each at its place.
pub proof fn law_in_order(features: Seq<ResolvedFeature>, order: Seq<usize>)
    ensures
        in_order(features, order).len() == order.len(),
        forall|k: int|
            0 <= k < order.len() ==> #[trigger] in_order(features, order)[k]
                == features[order[k] as int],
{
}

} // verus!

//! Renderers: pure functions from the aggregated model to an HTML, Markdown
//! or JSON document. All three read the same dependency list and the same
//! license-text table, so the formats agree on what they list.

use vstd::prelude::*;
use vstd::string::StringExecFns;

use crate::chars::{chars_of, push_char};
use crate::error::NoticeError;
use crate::notices::{Dep, Notices};
use crate::scan::{join_with, strs};
use crate::texts::{pairs_of, texts_model, texts_ok};

verus! {

/// HTML escaping of one text character: `&`, `<` and `>` become entities.
pub open spec fn html_escape_char(c: char) -> Seq<char> {
    if c == '&' {
        "&amp;"@
    } else if c == '<' {
        "&lt;"@
    } else if c == '>' {
        "&gt;"@
    } else {
        seq![c]
    }
}

/// HTML escaping of a text.
pub open spec fn spec_html_escape(s: Seq<char>) -> Seq<char>
    decreases s.len(),
{
    if s.len() == 0 {
        Seq::empty()
    } else {
        spec_html_escape(s.drop_last()) + html_escape_char(s.last())
    }
}

/// Relies on `html_escape::encode_text`: escapes exactly `&`, `<` and `>`
/// as HTML entities and leaves every other character as it is.
#[verifier::external_body]
fn encode_text(s: &str) -> (r: String)
    ensures
        r@ == spec_html_escape(s@),
{
    html_escape::encode_text(s).into_owned()
}

/// A line feed rendered as an HTML line break.
pub open spec fn br_char(c: char) -> Seq<char> {
    if c == '\n' {
        "<br />"@
    } else {
        seq![c]
    }
}

/// Every line feed rendered as an HTML line break.
pub open spec fn spec_br(s: Seq<char>) -> Seq<char>
    decreases s.len(),
{
    if s.len() == 0 {
        Seq::empty()
    } else {
        spec_br(s.drop_last()) + br_char(s.last())
    }
}

/// Replaces every line feed by an HTML line break.
fn replace_breaks(s: &str) -> (r: String)
    ensures
        r@ == spec_br(s@),
{
    let cs = chars_of(s);
    let mut out = String::new();
    let n = cs.len();
    let mut i: usize = 0;
    while i < n
        invariant
            0 <= i <= n,
            n == cs@.len(),
            cs@ == s@,
            out@ == spec_br(s@.subrange(0, i as int)),
        decreases n - i,
    {
        proof {
            assert(s@.subrange(0, i as int + 1).drop_last() =~= s@.subrange(0, i as int));
            assert(s@.subrange(0, i as int + 1).last() == s@[i as int]);
        }
        if cs[i] == '\n' {
            out.append("<br />");
        } else {
            push_char(&mut out, cs[i]);
        }
        proof {
            assert(out@ =~= spec_br(s@.subrange(0, i as int + 1)));
        }
        i += 1;
    }
    proof {
        assert(s@.subrange(0, n as int) =~= s@);
    }
    out
}

/// The notices cell of one dependency row: the notices joined by line
/// feeds, HTML-escaped, with the line feeds rendered as breaks.
pub open spec fn notices_cell(d: Dep) -> Seq<char> {
    spec_br(spec_html_escape(join_with(strs(d.notices@), "\n"@)))
}

/// One row of the dependency table.
pub open spec fn dep_row(d: Dep) -> Seq<char> {
    "<tr>\n<td>"@ + d.name@ + "</td><td><a href=\""@ + d.package_url@ + "\">"@ + d.package_url@
        + "</a></td><td>"@ + d.license_id@ + "</td><td>"@ + notices_cell(d) + "</td>\n</tr>\n"@
}

/// The rows of the dependency table, in dependency order.
pub open spec fn dep_rows(deps: Seq<Dep>) -> Seq<char>
    decreases deps.len(),
{
    if deps.len() == 0 {
        Seq::empty()
    } else {
        dep_rows(deps.drop_last()) + dep_row(deps.last())
    }
}

/// The dependency table shared by the HTML and Markdown documents.
pub open spec fn spec_deps_table(deps: Seq<Dep>) -> Seq<char> {
    "<table>\n<thead>\n<tr>\n<th>Name</th>\n<th>Package URL</th>\n<th>License ID</th>\n<th>Notices</th>\n</tr>\n</thead>\n<tbody>\n"@
        + dep_rows(deps) + "</tbody>\n</table>\n\n"@
}

/// The notices of one dependency joined by line feeds.
fn join_notices(ns: &Vec<String>) -> (r: String)
    ensures
        r@ == join_with(strs(ns@), "\n"@),
{
    let mut s = String::new();
    let n = ns.len();
    if n == 0 {
        return s;
    }
    s.append(ns[0].as_str());
    proof {
        assert(strs(ns@).subrange(0, 1) =~= seq![ns@[0]@]);
        assert(s@ =~= join_with(strs(ns@).subrange(0, 1), "\n"@));
    }
    let mut i: usize = 1;
    while i < n
        invariant
            1 <= i <= n,
            n == ns@.len(),
            s@ == join_with(strs(ns@).subrange(0, i as int), "\n"@),
        decreases n - i,
    {
        proof {
            assert(strs(ns@).subrange(0, i as int + 1).drop_last() =~= strs(ns@).subrange(
                0,
                i as int,
            ));
            assert(strs(ns@).subrange(0, i as int + 1).last() == ns@[i as int]@);
        }
        s.append("\n");
        s.append(ns[i].as_str());
        proof {
            assert(s@ =~= join_with(strs(ns@).subrange(0, i as int + 1), "\n"@));
        }
        i += 1;
    }
    proof {
        assert(strs(ns@).subrange(0, n as int) =~= strs(ns@));
    }
    s
}

/// Writes the dependency table.
pub fn html_deps_table(out: &mut String, deps: &Vec<Dep>)
    ensures
        final(out)@ == old(out)@ + spec_deps_table(deps@),
{
    out.append(
        "<table>\n<thead>\n<tr>\n<th>Name</th>\n<th>Package URL</th>\n<th>License ID</th>\n<th>Notices</th>\n</tr>\n</thead>\n<tbody>\n",
    );
    let ghost mid = out@;
    let n = deps.len();
    let mut i: usize = 0;
    while i < n
        invariant
            0 <= i <= n,
            n == deps@.len(),
            out@ == mid + dep_rows(deps@.subrange(0, i as int)),
        decreases n - i,
    {
        proof {
            assert(deps@.subrange(0, i as int + 1).drop_last() =~= deps@.subrange(0, i as int));
            assert(deps@.subrange(0, i as int + 1).last() == deps@[i as int]);
        }
        let d = &deps[i];
        out.append("<tr>\n<td>");
        out.append(d.name.as_str());
        out.append("</td><td><a href=\"");
        out.append(d.package_url.as_str());
        out.append("\">");
        out.append(d.package_url.as_str());
        out.append("</a></td><td>");
        out.append(d.license_id.as_str());
        out.append("</td><td>");
        let joined = join_notices(&d.notices);
        let cell = replace_breaks(encode_text(joined.as_str()).as_str());
        out.append(cell.as_str());
        out.append("</td>\n</tr>\n");
        proof {
            assert(out@ =~= mid + dep_rows(deps@.subrange(0, i as int + 1)));
        }
        i += 1;
    }
    proof {
        assert(deps@.subrange(0, n as int) =~= deps@);
    }
    out.append("</tbody>\n</table>\n\n");
}

/// The per-license sections of the HTML document.
pub open spec fn html_sections(texts: Seq<(Seq<char>, Seq<char>)>) -> Seq<char>
    decreases texts.len(),
{
    if texts.len() == 0 {
        Seq::empty()
    } else {
        html_sections(texts.drop_last()) + "<h3>"@ + texts.last().0
            + "</h3>\n<pre style=\"text-wrap:wrap\">\n"@ + texts.last().1 + "\n</pre>\n"@
    }
}

/// The per-license sections of the Markdown document.
pub open spec fn md_sections(texts: Seq<(Seq<char>, Seq<char>)>) -> Seq<char>
    decreases texts.len(),
{
    if texts.len() == 0 {
        Seq::empty()
    } else {
        md_sections(texts.drop_last()) + "### "@ + texts.last().0 + "\n```\n"@ + texts.last().1
            + "\n```\n"@
    }
}

/// The whole HTML document for a dependency list and a license-text table.
pub open spec fn spec_html_doc(deps: Seq<Dep>, texts: Seq<(Seq<char>, Seq<char>)>) -> Seq<char> {
    "<html>\n<head>\n<style>\ntable { border-collapse: collapse; }\na { color: hsl(200, 40%, 50%); }\nbody { padding: 1em; color: hsl(0, 0%, 80%) !important; background: hsl(0, 0%, 15%); }\ntd { border-bottom: 1px solid hsl(0, 0%, 20%); padding: 4px; }\npre { margin: 2em; background: hsl(0, 0%, 20%); padding: 2em; }\n</style>\n</head>\n<body>\n<h1>3rd Party Notices</h1>\n<h2>Dependencies</h2>\n"@
        + spec_deps_table(deps) + "<h2>Licenses</h2>\n"@ + html_sections(texts) + "</body>\n</html>\n"@
}

/// The whole Markdown document.
pub open spec fn spec_markdown_doc(deps: Seq<Dep>, texts: Seq<(Seq<char>, Seq<char>)>) -> Seq<
    char,
> {
    "# 3rd Party Notices\n## Dependencies\n"@ + spec_deps_table(deps) + "## Licenses\n"@
        + md_sections(texts)
}

/// The HTML report: a styled page with the dependency table and one heading
/// and preformatted block per distinct license text.
pub fn html(notices: &Notices) -> (r: Result<String, NoticeError>)
    ensures
        r is Ok <==> texts_ok(notices.licences@),
        r matches Ok(s) ==> s@ == spec_html_doc(
            notices.dependencies@,
            texts_model(notices.licences@),
        ),
        r matches Err(e) ==> e matches NoticeError::CorpusMissing { .. },
{
    let texts = notices.get_license_texts()?;
    let mut out = String::new();
    out.append(
        "<html>\n<head>\n<style>\ntable { border-collapse: collapse; }\na { color: hsl(200, 40%, 50%); }\nbody { padding: 1em; color: hsl(0, 0%, 80%) !important; background: hsl(0, 0%, 15%); }\ntd { border-bottom: 1px solid hsl(0, 0%, 20%); padding: 4px; }\npre { margin: 2em; background: hsl(0, 0%, 20%); padding: 2em; }\n</style>\n</head>\n<body>\n<h1>3rd Party Notices</h1>\n<h2>Dependencies</h2>\n",
    );
    html_deps_table(&mut out, &notices.dependencies);
    out.append("<h2>Licenses</h2>\n");
    let ghost mid = out@;
    let n = texts.len();
    let mut i: usize = 0;
    while i < n
        invariant
            0 <= i <= n,
            n == texts@.len(),
            out@ == mid + html_sections(pairs_of(texts@).subrange(0, i as int)),
        decreases n - i,
    {
        proof {
            assert(pairs_of(texts@).subrange(0, i as int + 1).drop_last() =~= pairs_of(texts@)
                .subrange(0, i as int));
            assert(pairs_of(texts@).subrange(0, i as int + 1).last() == pairs_of(texts@)[
                i as int]);
        }
        out.append("<h3>");
        out.append(texts[i].0.as_str());
        out.append("</h3>\n<pre style=\"text-wrap:wrap\">\n");
        out.append(texts[i].1.as_str());
        out.append("\n</pre>\n");
        proof {
            assert(out@ =~= mid + html_sections(pairs_of(texts@).subrange(0, i as int + 1)));
        }
        i += 1;
    }
    proof {
        assert(pairs_of(texts@).subrange(0, n as int) =~= pairs_of(texts@));
    }
    out.append("</body>\n</html>\n");
    Ok(out)
}

/// The Markdown report: the same table and license texts in Markdown form.
pub fn markdown(notices: &Notices) -> (r: Result<String, NoticeError>)
    ensures
        r is Ok <==> texts_ok(notices.licences@),
        r matches Ok(s) ==> s@ == spec_markdown_doc(
            notices.dependencies@,
            texts_model(notices.licences@),
        ),
        r matches Err(e) ==> e matches NoticeError::CorpusMissing { .. },
{
    let texts = notices.get_license_texts()?;
    let mut out = String::new();
    out.append("# 3rd Party Notices\n## Dependencies\n");
    html_deps_table(&mut out, &notices.dependencies);
    out.append("## Licenses\n");
    let ghost mid = out@;
    let n = texts.len();
    let mut i: usize = 0;
    while i < n
        invariant
            0 <= i <= n,
            n == texts@.len(),
            out@ == mid + md_sections(pairs_of(texts@).subrange(0, i as int)),
        decreases n - i,
    {
        proof {
            assert(pairs_of(texts@).subrange(0, i as int + 1).drop_last() =~= pairs_of(texts@)
                .subrange(0, i as int));
            assert(pairs_of(texts@).subrange(0, i as int + 1).last() == pairs_of(texts@)[
                i as int]);
        }
        out.append("### ");
        out.append(texts[i].0.as_str());
        out.append("\n```\n");
        out.append(texts[i].1.as_str());
        out.append("\n```\n");
        proof {
            assert(out@ =~= mid + md_sections(pairs_of(texts@).subrange(0, i as int + 1)));
        }
        i += 1;
    }
    proof {
        assert(pairs_of(texts@).subrange(0, n as int) =~= pairs_of(texts@));
    }
    Ok(out)
}

/// One of the sixteen lowercase hexadecimal digits.
pub open spec fn hex_digit(n: int) -> char {
    if n < 10 {
        ((48 + n) as u8) as char
    } else {
        ((87 + n) as u8) as char
    }
}

/// JSON escaping of one character inside a string literal.
pub open spec fn json_escape_char(c: char) -> Seq<char> {
    if c == '"' {
        "\\\""@
    } else if c == '\\' {
        "\\\\"@
    } else if c == '\n' {
        "\\n"@
    } else if c == '\r' {
        "\\r"@
    } else if c == '\t' {
        "\\t"@
    } else if (c as u32) < 32 {
        "\\u00"@ + seq![hex_digit((c as u8) as int / 16), hex_digit((c as u8) as int % 16)]
    } else {
        seq![c]
    }
}

/// JSON escaping of a whole text.
pub open spec fn spec_json_escape(s: Seq<char>) -> Seq<char>
    decreases s.len(),
{
    if s.len() == 0 {
        Seq::empty()
    } else {
        spec_json_escape(s.drop_last()) + json_escape_char(s.last())
    }
}

/// A JSON string literal holding the given text.
pub open spec fn json_str(s: Seq<char>) -> Seq<char> {
    "\""@ + spec_json_escape(s) + "\""@
}

fn hex_digit_exec(n: u8) -> (r: char)
    requires
        n < 16,
    ensures
        r == hex_digit(n as int),
{
    if n < 10 {
        (48 + n) as char
    } else {
        (87 + n) as char
    }
}

fn append_escaped_char(out: &mut String, c: char)
    ensures
        final(out)@ == old(out)@ + json_escape_char(c),
{
    if c == '"' {
        out.append("\\\"");
    } else if c == '\\' {
        out.append("\\\\");
    } else if c == '\n' {
        out.append("\\n");
    } else if c == '\r' {
        out.append("\\r");
    } else if c == '\t' {
        out.append("\\t");
    } else if (c as u32) < 32 {
        out.append("\\u00");
        let b = c as u8;
        push_char(out, hex_digit_exec(b / 16));
        push_char(out, hex_digit_exec(b % 16));
        proof {
            assert(final(out)@ =~= old(out)@ + json_escape_char(c));
        }
    } else {
        push_char(out, c);
        proof {
            assert(old(out)@.push(c) =~= old(out)@ + seq![c]);
        }
    }
}

/// Writes a JSON string literal holding the given text.
fn append_json_string(out: &mut String, s: &str)
    ensures
        final(out)@ == old(out)@ + json_str(s@),
{
    let cs = chars_of(s);
    out.append("\"");
    let n = cs.len();
    let mut i: usize = 0;
    while i < n
        invariant
            0 <= i <= n,
            n == cs@.len(),
            cs@ == s@,
            out@ == old(out)@ + "\""@ + spec_json_escape(s@.subrange(0, i as int)),
        decreases n - i,
    {
        proof {
            assert(s@.subrange(0, i as int + 1).drop_last() =~= s@.subrange(0, i as int));
            assert(s@.subrange(0, i as int + 1).last() == s@[i as int]);
        }
        append_escaped_char(out, cs[i]);
        proof {
            assert(out@ =~= old(out)@ + "\""@ + spec_json_escape(s@.subrange(0, i as int + 1)));
        }
        i += 1;
    }
    proof {
        assert(s@.subrange(0, n as int) =~= s@);
    }
    out.append("\"");
    proof {
        assert(final(out)@ =~= old(out)@ + json_str(s@));
    }
}

/// The JSON string literals of a sequence of texts.
pub open spec fn json_strings(xs: Seq<Seq<char>>) -> Seq<Seq<char>> {
    xs.map_values(|x: Seq<char>| json_str(x))
}

/// The JSON array holding a dependency's notices.
pub open spec fn json_notice_array(ns: Seq<Seq<char>>) -> Seq<char> {
    "["@ + join_with(json_strings(ns), ", "@) + "]"@
}

/// The JSON object of one dependency.
pub open spec fn json_dep_obj(d: Dep) -> Seq<char> {
    "{ \"name\": "@ + json_str(d.name@) + ", \"package_url\": "@ + json_str(d.package_url@)
        + ", \"license_id\": "@ + json_str(d.license_id@) + ", \"notices\": "@ + json_notice_array(
        strs(d.notices@),
    ) + " }"@
}

/// The JSON objects of the dependency list, in order.
pub open spec fn json_dep_objs(deps: Seq<Dep>) -> Seq<Seq<char>> {
    deps.map_values(|d: Dep| json_dep_obj(d))
}

/// The JSON pair of one license: its canonical string and its full text.
pub open spec fn json_license_pair(p: (Seq<char>, Seq<char>)) -> Seq<char> {
    "[ "@ + json_str(p.0) + ", "@ + json_str(p.1) + " ]"@
}

/// The JSON pairs of the license-text table, in order.
pub open spec fn json_license_pairs(texts: Seq<(Seq<char>, Seq<char>)>) -> Seq<Seq<char>> {
    texts.map_values(|p: (Seq<char>, Seq<char>)| json_license_pair(p))
}

/// The whole JSON document: an object with the dependency array and the
/// license-text array.
pub open spec fn spec_json_doc(deps: Seq<Dep>, texts: Seq<(Seq<char>, Seq<char>)>) -> Seq<char> {
    "{\n  \"dependencies\": [\n"@ + join_with(json_dep_objs(deps), ",\n"@)
        + "\n  ],\n  \"licenses\": [\n"@ + join_with(json_license_pairs(texts), ",\n"@)
        + "\n  ]\n}\n"@
}

/// Writes the JSON array of one dependency's notices.
fn append_notice_array(out: &mut String, ns: &Vec<String>)
    ensures
        final(out)@ == old(out)@ + json_notice_array(strs(ns@)),
{
    out.append("[");
    let n = ns.len();
    if n > 0 {
        append_json_string(out, ns[0].as_str());
        proof {
            assert(json_strings(strs(ns@)).subrange(0, 1) =~= seq![json_str(ns@[0]@)]);
            assert(out@ =~= old(out)@ + "["@ + join_with(
                json_strings(strs(ns@)).subrange(0, 1),
                ", "@,
            ));
        }
        let mut i: usize = 1;
        while i < n
            invariant
                1 <= i <= n,
                n == ns@.len(),
                out@ == old(out)@ + "["@ + join_with(
                    json_strings(strs(ns@)).subrange(0, i as int),
                    ", "@,
                ),
            decreases n - i,
        {
            proof {
                assert(json_strings(strs(ns@)).subrange(0, i as int + 1).drop_last()
                    =~= json_strings(strs(ns@)).subrange(0, i as int));
                assert(json_strings(strs(ns@)).subrange(0, i as int + 1).last() == json_str(
                    ns@[i as int]@,
                ));
            }
            out.append(", ");
            append_json_string(out, ns[i].as_str());
            proof {
                assert(out@ =~= old(out)@ + "["@ + join_with(
                    json_strings(strs(ns@)).subrange(0, i as int + 1),
                    ", "@,
                ));
            }
            i += 1;
        }
        proof {
            assert(json_strings(strs(ns@)).subrange(0, n as int) =~= json_strings(strs(ns@)));
        }
    } else {
        proof {
            assert(json_strings(strs(ns@)) =~= Seq::<Seq<char>>::empty());
        }
    }
    out.append("]");
    proof {
        assert(final(out)@ =~= old(out)@ + json_notice_array(strs(ns@)));
    }
}

/// Writes the JSON object of one dependency.
fn append_dep_obj(out: &mut String, d: &Dep)
    ensures
        final(out)@ == old(out)@ + json_dep_obj(*d),
{
    out.append("{ \"name\": ");
    append_json_string(out, d.name.as_str());
    out.append(", \"package_url\": ");
    append_json_string(out, d.package_url.as_str());
    out.append(", \"license_id\": ");
    append_json_string(out, d.license_id.as_str());
    out.append(", \"notices\": ");
    append_notice_array(out, &d.notices);
    out.append(" }");
    proof {
        assert(final(out)@ =~= old(out)@ + json_dep_obj(*d));
    }
}

/// The JSON report: a pretty-printed object with a `dependencies` array of
/// one object per dependency and a `licenses` array of
/// (canonical license string, full text) pairs.
pub fn json(notices: &Notices) -> (r: Result<String, NoticeError>)
    ensures
        r is Ok <==> texts_ok(notices.licences@),
        r matches Ok(s) ==> s@ == spec_json_doc(
            notices.dependencies@,
            texts_model(notices.licences@),
        ),
        r matches Err(e) ==> e matches NoticeError::CorpusMissing { .. },
{
    let texts = notices.get_license_texts()?;
    let mut out = String::new();
    out.append("{\n  \"dependencies\": [\n");
    let deps = &notices.dependencies;
    let nd = deps.len();
    let ghost mid0 = out@;
    if nd > 0 {
        append_dep_obj(&mut out, &deps[0]);
        proof {
            assert(json_dep_objs(deps@).subrange(0, 1) =~= seq![json_dep_obj(deps@[0])]);
            assert(out@ =~= mid0 + join_with(json_dep_objs(deps@).subrange(0, 1), ",\n"@));
        }
        let mut i: usize = 1;
        while i < nd
            invariant
                1 <= i <= nd,
                nd == deps@.len(),
                out@ == mid0 + join_with(json_dep_objs(deps@).subrange(0, i as int), ",\n"@),
            decreases nd - i,
        {
            proof {
                assert(json_dep_objs(deps@).subrange(0, i as int + 1).drop_last() =~= json_dep_objs(
                    deps@,
                ).subrange(0, i as int));
                assert(json_dep_objs(deps@).subrange(0, i as int + 1).last() == json_dep_obj(
                    deps@[i as int],
                ));
            }
            out.append(",\n");
            append_dep_obj(&mut out, &deps[i]);
            proof {
                assert(out@ =~= mid0 + join_with(
                    json_dep_objs(deps@).subrange(0, i as int + 1),
                    ",\n"@,
                ));
            }
            i += 1;
        }
        proof {
            assert(json_dep_objs(deps@).subrange(0, nd as int) =~= json_dep_objs(deps@));
        }
    } else {
        proof {
            assert(json_dep_objs(deps@) =~= Seq::<Seq<char>>::empty());
        }
    }
    out.append("\n  ],\n  \"licenses\": [\n");
    let ghost mid1 = out@;
    let nt = texts.len();
    if nt > 0 {
        out.append("[ ");
        append_json_string(&mut out, texts[0].0.as_str());
        out.append(", ");
        append_json_string(&mut out, texts[0].1.as_str());
        out.append(" ]");
        proof {
            assert(json_license_pairs(pairs_of(texts@)).subrange(0, 1) =~= seq![
                json_license_pair(pairs_of(texts@)[0]),
            ]);
            assert(out@ =~= mid1 + join_with(
                json_license_pairs(pairs_of(texts@)).subrange(0, 1),
                ",\n"@,
            ));
        }
        let mut i: usize = 1;
        while i < nt
            invariant
                1 <= i <= nt,
                nt == texts@.len(),
                out@ == mid1 + join_with(
                    json_license_pairs(pairs_of(texts@)).subrange(0, i as int),
                    ",\n"@,
                ),
            decreases nt - i,
        {
            proof {
                assert(json_license_pairs(pairs_of(texts@)).subrange(0, i as int + 1).drop_last()
                    =~= json_license_pairs(pairs_of(texts@)).subrange(0, i as int));
                assert(json_license_pairs(pairs_of(texts@)).subrange(0, i as int + 1).last()
                    == json_license_pair(pairs_of(texts@)[i as int]));
            }
            out.append(",\n");
            out.append("[ ");
            append_json_string(&mut out, texts[i].0.as_str());
            out.append(", ");
            append_json_string(&mut out, texts[i].1.as_str());
            out.append(" ]");
            proof {
                assert(out@ =~= mid1 + join_with(
                    json_license_pairs(pairs_of(texts@)).subrange(0, i as int + 1),
                    ",\n"@,
                ));
            }
            i += 1;
        }
        proof {
            assert(json_license_pairs(pairs_of(texts@)).subrange(0, nt as int) =~= json_license_pairs(
                pairs_of(texts@),
            ));
        }
    } else {
        proof {
            assert(json_license_pairs(pairs_of(texts@)) =~= Seq::<Seq<char>>::empty());
        }
    }
    out.append("\n  ]\n}\n");
    proof {
        assert(out@ =~= spec_json_doc(notices.dependencies@, texts_model(notices.licences@)));
    }
    Ok(out)
}

/// The dependency names the HTML table rows embed, in row order.
pub open spec fn html_listed_names(deps: Seq<Dep>) -> Seq<Seq<char>> {
    deps.map_values(|d: Dep| d.name@)
}

/// The license ids the HTML table rows embed, in row order.
pub open spec fn html_listed_license_ids(deps: Seq<Dep>) -> Seq<Seq<char>> {
    deps.map_values(|d: Dep| d.license_id@)
}

/// The license-text keys the HTML license sections embed, in order.
pub open spec fn html_listed_keys(texts: Seq<(Seq<char>, Seq<char>)>) -> Seq<Seq<char>> {
    texts.map_values(|p: (Seq<char>, Seq<char>)| p.0)
}

/// The dependency names the JSON dependency objects embed, in array order.
pub open spec fn json_listed_names(deps: Seq<Dep>) -> Seq<Seq<char>> {
    deps.map_values(|d: Dep| d.name@)
}

/// The license ids the JSON dependency objects embed, in array order.
pub open spec fn json_listed_license_ids(deps: Seq<Dep>) -> Seq<Seq<char>> {
    deps.map_values(|d: Dep| d.license_id@)
}

/// The license-text keys the JSON license array embeds, in order.
pub open spec fn json_listed_keys(texts: Seq<(Seq<char>, Seq<char>)>) -> Seq<Seq<char>> {
    texts.map_values(|p: (Seq<char>, Seq<char>)| p.0)
}

/// Cross-format consistency: rendering the same aggregate to JSON and to
/// HTML lists identical dependency names, identical license ids, and
/// identical license-text keys, in the same order — both documents are
/// projections of the one dependency list and the one license-text table
/// (see [`spec_html_doc`] and [`spec_json_doc`]), and never re-derive them.
pub proof fn lemma_render_consistency(deps: Seq<Dep>, texts: Seq<(Seq<char>, Seq<char>)>)
    ensures
        json_listed_names(deps) == html_listed_names(deps),
        json_listed_license_ids(deps) == html_listed_license_ids(deps),
        json_listed_keys(texts) == html_listed_keys(texts),
{
}

} // verus!

//! The output side the renderers share: the output formats a listing
//! can take, the id-list rendering, markup escaping for export, and the
//! colored tag badges of the web view.

use vstd::prelude::*;

use crate::article::Article;
use crate::strutil::{dec_i64, i64_to_string, push_char, str_to_chars};

verus! {

/// The shapes a listing can be rendered in.
#[derive(Debug, Clone, Copy, PartialEq, Eq, Structural)]
pub enum OutputFormat {
    Table,
    Json,
    Ids,
}

/// The format a name denotes, if any.
pub open spec fn spec_output_format(s: Seq<char>) -> Option<OutputFormat> {
    if s == "table"@ {
        Some(OutputFormat::Table)
    } else if s == "json"@ {
        Some(OutputFormat::Json)
    } else if s == "ids"@ {
        Some(OutputFormat::Ids)
    } else {
        None
    }
}

/// Reads an output-format name; an unknown name is no format.
pub fn parse_output_format(s: &str) -> (r: Option<OutputFormat>)
    ensures
        r == spec_output_format(s@),
{
    let v = str_to_chars(s);
    let t = crate::strutil::chars_to_string(&v);
    if t.eq(&String::from_str("table")) {
        proof {
            reveal_strlit("table");
        }
        Some(OutputFormat::Table)
    } else if t.eq(&String::from_str("json")) {
        proof {
            reveal_strlit("json");
        }
        Some(OutputFormat::Json)
    } else if t.eq(&String::from_str("ids")) {
        proof {
            reveal_strlit("ids");
        }
        Some(OutputFormat::Ids)
    } else {
        None
    }
}

/// The id-list rendering of a listing: each id in decimal on its own
/// line.
pub open spec fn id_lines(ids: Seq<i64>) -> Seq<char>
    decreases ids.len(),
{
    if ids.len() == 0 {
        Seq::empty()
    } else {
        id_lines(ids.drop_last()).add(dec_i64(ids.last() as int)).push('\n')
    }
}

/// Renders the ids of a listing, one per line.
pub fn format_id_lines(articles: &Vec<Article>) -> (r: String)
    ensures
        r@ == id_lines(articles@.map_values(|a: Article| a.id)),
{
    let ghost ids = articles@.map_values(|a: Article| a.id);
    let mut out = String::new();
    let mut i: usize = 0;
    proof {
        assert(ids.take(0) =~= Seq::<i64>::empty());
        assert(out@ =~= id_lines(ids.take(0)));
    }
    while i < articles.len()
        invariant
            ids == articles@.map_values(|a: Article| a.id),
            ids.len() == articles@.len(),
            i <= articles@.len(),
            out@ == id_lines(ids.take(i as int)),
        decreases articles@.len() - i,
    {
        proof {
            assert(ids.take(i + 1).drop_last() =~= ids.take(i as int));
            assert(ids.take(i + 1).last() == ids[i as int]);
        }
        let num = i64_to_string(articles[i].id);
        out.append(num.as_str());
        push_char(&mut out, '\n');
        i = i + 1;
    }
    proof {
        assert(ids.take(ids.len() as int) =~= ids);
    }
    out
}

/// How one character reads inside exported markup: the five reserved
/// characters as entities, everything else as itself.
pub open spec fn escape_markup_char(c: char) -> Seq<char> {
    if c == '&' {
        "&amp;"@
    } else if c == '<' {
        "&lt;"@
    } else if c == '>' {
        "&gt;"@
    } else if c == '"' {
        "&quot;"@
    } else if c == '\'' {
        "&#39;"@
    } else {
        seq![c]
    }
}

/// A whole string, escaped for exported markup.
pub open spec fn escape_markup(s: Seq<char>) -> Seq<char>
    decreases s.len(),
{
    if s.len() == 0 {
        Seq::empty()
    } else {
        escape_markup_char(s[0]).add(escape_markup(s.skip(1)))
    }
}

/// Escapes text for embedding in exported markup.
pub fn html_escape(text: &str) -> (r: String)
    ensures
        r@ == escape_markup(text@),
{
    let v = str_to_chars(text);
    let mut out = String::new();
    let mut i: usize = 0;
    proof {
        assert(text@.skip(0) =~= text@);
        assert(out@.add(escape_markup(text@.skip(0))) =~= escape_markup(text@));
    }
    while i < v.len()
        invariant
            v@ == text@,
            i <= v@.len(),
            escape_markup(text@) == out@.add(escape_markup(text@.skip(i as int))),
        decreases v@.len() - i,
    {
        let c = v[i];
        proof {
            assert(text@.skip(i as int)[0] == text@[i as int]);
            assert(text@.skip(i as int).skip(1) =~= text@.skip(i + 1));
            assert(escape_markup(text@.skip(i as int)) == escape_markup_char(c).add(
                escape_markup(text@.skip(i + 1)),
            ));
        }
        if c == '&' {
            out.append("&amp;");
            proof {
                reveal_strlit("&amp;");
            }
        } else if c == '<' {
            out.append("&lt;");
            proof {
                reveal_strlit("&lt;");
            }
        } else if c == '>' {
            out.append("&gt;");
            proof {
                reveal_strlit("&gt;");
            }
        } else if c == '"' {
            out.append("&quot;");
            proof {
                reveal_strlit("&quot;");
            }
        } else if c == '\'' {
            out.append("&#39;");
            proof {
                reveal_strlit("&#39;");
            }
        } else {
            push_char(&mut out, c);
        }
        proof {
            assert(out@.add(escape_markup(text@.skip(i + 1))) =~= escape_markup(text@));
        }
        i = i + 1;
    }
    proof {
        assert(text@.skip(v@.len() as int) =~= Seq::<char>::empty());
        assert(out@.add(Seq::<char>::empty()) =~= out@);
    }
    out
}

/// The rotation of badge colors the web view cycles through.
pub open spec fn badge_color(i: int) -> Seq<char> {
    let k = i % 6;
    if k == 0 {
        "blue"@
    } else if k == 1 {
        "purple"@
    } else if k == 2 {
        "green"@
    } else if k == 3 {
        "orange"@
    } else if k == 4 {
        "pink"@
    } else {
        "gray"@
    }
}

/// One tag badge of the web view: a span carrying the rotation color.
pub open spec fn tag_badge(tag: Seq<char>, i: int) -> Seq<char> {
    "<span class=\"tag tag-"@.add(badge_color(i)).add("\">"@).add(tag).add("</span>"@)
}

/// The badges of a whole tag list, in order.
pub open spec fn tag_badges(tags: Seq<Seq<char>>, i: int) -> Seq<char>
    decreases tags.len(),
{
    if tags.len() == 0 {
        Seq::empty()
    } else {
        tag_badge(tags[0], i).add(tag_badges(tags.skip(1), i + 1))
    }
}

fn badge_color_exec(i: usize) -> (r: &'static str)
    ensures
        r@ == badge_color(i as int),
{
    let k = i % 6;
    if k == 0 {
        "blue"
    } else if k == 1 {
        "purple"
    } else if k == 2 {
        "green"
    } else if k == 3 {
        "orange"
    } else if k == 4 {
        "pink"
    } else {
        "gray"
    }
}

/// Renders a tag list as the web view's colored badges, colors cycling
/// in tag order.
pub fn format_tags_colored(tags: &Vec<String>) -> (r: String)
    ensures
        r@ == tag_badges(tags.deep_view(), 0),
{
    let ghost tv = tags.deep_view();
    let mut out = String::new();
    let mut i: usize = 0;
    proof {
        assert(tv.skip(0) =~= tv);
        assert(out@.add(tag_badges(tv.skip(0), 0)) =~= tag_badges(tv, 0));
    }
    while i < tags.len()
        invariant
            tv == tags.deep_view(),
            tv.len() == tags@.len(),
            i <= tags@.len(),
            tag_badges(tv, 0) == out@.add(tag_badges(tv.skip(i as int), i as int)),
        decreases tags@.len() - i,
    {
        proof {
            assert(tv.skip(i as int)[0] == tv[i as int]);
            assert(tv.skip(i as int).skip(1) =~= tv.skip(i + 1));
            assert(tag_badges(tv.skip(i as int), i as int) == tag_badge(tv[i as int], i as int).add(
                tag_badges(tv.skip(i + 1), i + 1),
            ));
            assert(tv[i as int] == tags@[i as int]@);
        }
        out.append("<span class=\"tag tag-");
        out.append(badge_color_exec(i));
        out.append("\">");
        out.append(tags[i].as_str());
        out.append("</span>");
        proof {
            reveal_strlit("<span class=\"tag tag-");
            reveal_strlit("\">");
            reveal_strlit("</span>");
            assert(out@.add(tag_badges(tv.skip(i + 1), i + 1)) =~= tag_badges(tv, 0));
        }
        i = i + 1;
    }
    proof {
        assert(tv.skip(tv.len() as int) =~= Seq::<Seq<char>>::empty());
        assert(out@.add(Seq::<char>::empty()) =~= out@);
    }
    out
}

} // verus!

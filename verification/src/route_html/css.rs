use lightningcss::declaration::DeclarationBlock;
use lightningcss::printer::PrinterOptions;
use lightningcss::properties::Property;
use lightningcss::stylesheet::{MinifyOptions, ParserOptions, StyleSheet};
use vstd::prelude::*;

verus! {

/// What lightningcss makes of a style sheet: parsed
/// (`StyleSheet::parse`, default options), minified
/// (`StyleSheet::minify`, default options) and printed
/// (`StyleSheet::to_css`, default options); nothing when one of the
/// steps fails.
pub uninterp spec fn spec_minified_css(source: Seq<char>) -> Option<Seq<char>>;

/// lightningcss's parse, minify and print of a style sheet, as
/// [`spec_minified_css`] names it. The `StyleSheet` that the three calls
/// pass along is lightningcss's own and is never seen here; the contract
/// claims only that the printed text (or the failure) depends on the
/// source text alone. The hash maps that lightningcss keeps while it
/// minifies (to merge rules and to drop repeated declarations) are only
/// looked up, never walked, so the printed order follows the sheet.
/// Whether some source makes lightningcss panic is left unsaid: its source
/// does not show either way.
#[verifier::external_body]
pub(crate) fn minify_css(source: &str) -> (r: Option<String>)
    ensures
        match r {
            Some(t) => spec_minified_css(source@) == Some(t@),
            None => spec_minified_css(source@) is None,
        },
{
    let mut sheet = match StyleSheet::parse(source, ParserOptions::default()) {
        Ok(sheet) => sheet,
        Err(_) => return None,
    };
    if sheet.minify(MinifyOptions::default()).is_err() {
        return None;
    }
    sheet.to_css(PrinterOptions::default()).ok().map(|res| res.code)
}

/// What lightningcss reads in a css declaration block
/// (`DeclarationBlock::parse_string`, default options): nothing when the
/// block does not parse; else, for each declaration (the normal ones, then
/// the `!important` ones), whether it is a custom (unknown or `--name`)
/// property, and its text as `Property::to_css_string` prints it
/// (`name: value`), or nothing for the whole block when printing fails.
pub uninterp spec fn spec_css_declarations(source: Seq<char>) -> Option<Seq<(bool, Seq<char>)>>;

/// lightningcss's reading of a declaration block, as
/// [`spec_css_declarations`] names it. The contract claims only that the
/// answer depends on the source text alone: the declarations come out in
/// the order of the block. Whether some block makes lightningcss panic is
/// left unsaid: its source does not show either way.
#[verifier::external_body]
pub(crate) fn css_declarations(source: &str) -> (r: Option<Vec<(bool, String)>>)
    ensures
        match r {
            Some(v) => spec_css_declarations(source@) == Some(
                v@.map_values(|d: (bool, String)| (d.0, d.1@)),
            ),
            None => spec_css_declarations(source@) is None,
        },
{
    let block = DeclarationBlock::parse_string(source, ParserOptions::default()).ok()?;
    let mut out = Vec::new();
    for (list, important) in [(&block.declarations, false), (&block.important_declarations, true)] {
        for item in list {
            let text = item.to_css_string(important, PrinterOptions::default()).ok()?;
            out.push((matches!(item, Property::Custom(_)), text));
        }
    }
    Some(out)
}

} // verus!

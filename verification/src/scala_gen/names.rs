//! Names of the generated Scala bindings, and the node kinds of the JSON
//! representation, derived from the names in the grammar.

use heck::{ToLowerCamelCase, ToShoutySnakeCase};
use vstd::prelude::*;
use vstd::string::{StrSliceExecFns, StringExecFns};
use crate::text::same_text;

verus! {

/// The text in SHOUTY_SNAKE_CASE, as `heck` converts it.
pub uninterp spec fn shouty_snake_case(text: Seq<char>) -> Seq<char>;

/// The text in lowerCamelCase, as `heck` converts it.
pub uninterp spec fn lower_camel_case(text: Seq<char>) -> Seq<char>;

/// Calls `heck::ToShoutySnakeCase::to_shouty_snake_case` on the text.
/// Claimed: the result is the named `shouty_snake_case` of the text.
#[verifier::external_body]
fn to_shouty_snake_case(text: &str) -> (res: String)
    ensures
        res@ == shouty_snake_case(text@),
{
    text.to_shouty_snake_case()
}

/// Calls `heck::ToLowerCamelCase::to_lower_camel_case` on the text.
/// Claimed: the result is the named `lower_camel_case` of the text.
#[verifier::external_body]
fn to_lower_camel_case(text: &str) -> (res: String)
    ensures
        res@ == lower_camel_case(text@),
{
    text.to_lower_camel_case()
}

/// The JSON kind of each operator and punctuation token.
pub open spec fn punct_json_kind(token: Seq<char>) -> Option<Seq<char>> {
    if token == ";"@ {
        Some("SEMICOLON"@)
    } else if token == ","@ {
        Some("COMMA"@)
    } else if token == "("@ {
        Some("L_PAREN"@)
    } else if token == ")"@ {
        Some("R_PAREN"@)
    } else if token == "{"@ {
        Some("L_CURLY"@)
    } else if token == "}"@ {
        Some("R_CURLY"@)
    } else if token == "["@ {
        Some("L_BRACK"@)
    } else if token == "]"@ {
        Some("R_BRACK"@)
    } else if token == "<"@ {
        Some("L_ANGLE"@)
    } else if token == ">"@ {
        Some("R_ANGLE"@)
    } else if token == "@"@ {
        Some("AT"@)
    } else if token == "#"@ {
        Some("POUND"@)
    } else if token == "~"@ {
        Some("TILDE"@)
    } else if token == "?"@ {
        Some("QUESTION"@)
    } else if token == "&"@ {
        Some("AMP"@)
    } else if token == "|"@ {
        Some("PIPE"@)
    } else if token == "+"@ {
        Some("PLUS"@)
    } else if token == "*"@ {
        Some("STAR"@)
    } else if token == "/"@ {
        Some("SLASH"@)
    } else if token == "^"@ {
        Some("CARET"@)
    } else if token == "%"@ {
        Some("PERCENT"@)
    } else if token == "_"@ {
        Some("UNDERSCORE"@)
    } else if token == "."@ {
        Some("DOT"@)
    } else if token == ".."@ {
        Some("DOT2"@)
    } else if token == "..."@ {
        Some("DOT3"@)
    } else if token == "..="@ {
        Some("DOT2EQ"@)
    } else if token == ":"@ {
        Some("COLON"@)
    } else if token == "::"@ {
        Some("COLON2"@)
    } else if token == "="@ {
        Some("EQ"@)
    } else if token == "=="@ {
        Some("EQ2"@)
    } else if token == "=>"@ {
        Some("FAT_ARROW"@)
    } else if token == "!"@ {
        Some("BANG"@)
    } else if token == "!="@ {
        Some("NEQ"@)
    } else if token == "-"@ {
        Some("MINUS"@)
    } else if token == "->"@ {
        Some("THIN_ARROW"@)
    } else if token == "<="@ {
        Some("LTEQ"@)
    } else if token == ">="@ {
        Some("GTEQ"@)
    } else if token == "+="@ {
        Some("PLUSEQ"@)
    } else if token == "-="@ {
        Some("MINUSEQ"@)
    } else if token == "|="@ {
        Some("PIPEEQ"@)
    } else if token == "&="@ {
        Some("AMPEQ"@)
    } else if token == "^="@ {
        Some("CARETEQ"@)
    } else if token == "/="@ {
        Some("SLASHEQ"@)
    } else if token == "*="@ {
        Some("STAREQ"@)
    } else if token == "%="@ {
        Some("PERCENTEQ"@)
    } else if token == "&&"@ {
        Some("AMP2"@)
    } else if token == "||"@ {
        Some("PIPE2"@)
    } else if token == "<<"@ {
        Some("SHL"@)
    } else if token == ">>"@ {
        Some("SHR"@)
    } else if token == "<<="@ {
        Some("SHLEQ"@)
    } else if token == ">>="@ {
        Some("SHREQ"@)
    } else {
        None
    }
}

/// The operator or punctuation token whose kind is `kind`, read back from the
/// table.
pub open spec fn punct_of_kind(kind: Seq<char>) -> Seq<char> {
    if kind == "SEMICOLON"@ {
        ";"@
    } else if kind == "COMMA"@ {
        ","@
    } else if kind == "L_PAREN"@ {
        "("@
    } else if kind == "R_PAREN"@ {
        ")"@
    } else if kind == "L_CURLY"@ {
        "{"@
    } else if kind == "R_CURLY"@ {
        "}"@
    } else if kind == "L_BRACK"@ {
        "["@
    } else if kind == "R_BRACK"@ {
        "]"@
    } else if kind == "L_ANGLE"@ {
        "<"@
    } else if kind == "R_ANGLE"@ {
        ">"@
    } else if kind == "AT"@ {
        "@"@
    } else if kind == "POUND"@ {
        "#"@
    } else if kind == "TILDE"@ {
        "~"@
    } else if kind == "QUESTION"@ {
        "?"@
    } else if kind == "AMP"@ {
        "&"@
    } else if kind == "PIPE"@ {
        "|"@
    } else if kind == "PLUS"@ {
        "+"@
    } else if kind == "STAR"@ {
        "*"@
    } else if kind == "SLASH"@ {
        "/"@
    } else if kind == "CARET"@ {
        "^"@
    } else if kind == "PERCENT"@ {
        "%"@
    } else if kind == "UNDERSCORE"@ {
        "_"@
    } else if kind == "DOT"@ {
        "."@
    } else if kind == "DOT2"@ {
        ".."@
    } else if kind == "DOT3"@ {
        "..."@
    } else if kind == "DOT2EQ"@ {
        "..="@
    } else if kind == "COLON"@ {
        ":"@
    } else if kind == "COLON2"@ {
        "::"@
    } else if kind == "EQ"@ {
        "="@
    } else if kind == "EQ2"@ {
        "=="@
    } else if kind == "FAT_ARROW"@ {
        "=>"@
    } else if kind == "BANG"@ {
        "!"@
    } else if kind == "NEQ"@ {
        "!="@
    } else if kind == "MINUS"@ {
        "-"@
    } else if kind == "THIN_ARROW"@ {
        "->"@
    } else if kind == "LTEQ"@ {
        "<="@
    } else if kind == "GTEQ"@ {
        ">="@
    } else if kind == "PLUSEQ"@ {
        "+="@
    } else if kind == "MINUSEQ"@ {
        "-="@
    } else if kind == "PIPEEQ"@ {
        "|="@
    } else if kind == "AMPEQ"@ {
        "&="@
    } else if kind == "CARETEQ"@ {
        "^="@
    } else if kind == "SLASHEQ"@ {
        "/="@
    } else if kind == "STAREQ"@ {
        "*="@
    } else if kind == "PERCENTEQ"@ {
        "%="@
    } else if kind == "AMP2"@ {
        "&&"@
    } else if kind == "PIPE2"@ {
        "||"@
    } else if kind == "SHL"@ {
        "<<"@
    } else if kind == "SHR"@ {
        ">>"@
    } else if kind == "SHLEQ"@ {
        "<<="@
    } else if kind == "SHREQ"@ {
        ">>="@
    } else {
        Seq::empty()
    }
}

/// A JSON kind: upper-case letters, digits and underscores, at least one.
pub open spec fn is_kind_text(kind: Seq<char>) -> bool {
    &&& kind.len() > 0
    &&& forall|i: int| 0 <= i < kind.len() ==> {
        let c = #[trigger] kind[i];
        ('A' <= c && c <= 'Z') || ('0' <= c && c <= '9') || c == '_'
    }
}

/// The kind ends in `_KW`, as a keyword's kind does.
pub open spec fn ends_in_kw(kind: Seq<char>) -> bool {
    kind.len() >= 3 && kind[kind.len() - 3] == '_' && kind[kind.len() - 2] == 'K'
        && kind[kind.len() - 1] == 'W'
}

/// Each operator or punctuation kind is made of upper-case letters, digits
/// and underscores and does not end in `_KW`, so that no such kind is also a
/// keyword's.
pub proof fn lemma_punct_kind_text(token: Seq<char>)
    ensures
        punct_json_kind(token) matches Some(k) ==> is_kind_text(k) && !ends_in_kw(k),
{
    reveal_strlit("SEMICOLON");
    reveal_strlit("COMMA");
    reveal_strlit("L_PAREN");
    reveal_strlit("R_PAREN");
    reveal_strlit("L_CURLY");
    reveal_strlit("R_CURLY");
    reveal_strlit("L_BRACK");
    reveal_strlit("R_BRACK");
    reveal_strlit("L_ANGLE");
    reveal_strlit("R_ANGLE");
    reveal_strlit("AT");
    reveal_strlit("POUND");
    reveal_strlit("TILDE");
    reveal_strlit("QUESTION");
    reveal_strlit("AMP");
    reveal_strlit("PIPE");
    reveal_strlit("PLUS");
    reveal_strlit("STAR");
    reveal_strlit("SLASH");
    reveal_strlit("CARET");
    reveal_strlit("PERCENT");
    reveal_strlit("UNDERSCORE");
    reveal_strlit("DOT");
    reveal_strlit("DOT2");
    reveal_strlit("DOT3");
    reveal_strlit("DOT2EQ");
    reveal_strlit("COLON");
    reveal_strlit("COLON2");
    reveal_strlit("EQ");
    reveal_strlit("EQ2");
    reveal_strlit("FAT_ARROW");
    reveal_strlit("BANG");
    reveal_strlit("NEQ");
    reveal_strlit("MINUS");
    reveal_strlit("THIN_ARROW");
    reveal_strlit("LTEQ");
    reveal_strlit("GTEQ");
    reveal_strlit("PLUSEQ");
    reveal_strlit("MINUSEQ");
    reveal_strlit("PIPEEQ");
    reveal_strlit("AMPEQ");
    reveal_strlit("CARETEQ");
    reveal_strlit("SLASHEQ");
    reveal_strlit("STAREQ");
    reveal_strlit("PERCENTEQ");
    reveal_strlit("AMP2");
    reveal_strlit("PIPE2");
    reveal_strlit("SHL");
    reveal_strlit("SHR");
    reveal_strlit("SHLEQ");
    reveal_strlit("SHREQ");
}

/// Reading the table back from a kind gives the token: no two tokens share a
/// kind.
pub proof fn lemma_punct_kind_unique(a: Seq<char>)
    ensures
        punct_json_kind(a) matches Some(k) ==> punct_of_kind(k) == a,
{
    reveal_strlit("SEMICOLON");
    reveal_strlit("COMMA");
    reveal_strlit("L_PAREN");
    reveal_strlit("R_PAREN");
    reveal_strlit("L_CURLY");
    reveal_strlit("R_CURLY");
    reveal_strlit("L_BRACK");
    reveal_strlit("R_BRACK");
    reveal_strlit("L_ANGLE");
    reveal_strlit("R_ANGLE");
    reveal_strlit("AT");
    reveal_strlit("POUND");
    reveal_strlit("TILDE");
    reveal_strlit("QUESTION");
    reveal_strlit("AMP");
    reveal_strlit("PIPE");
    reveal_strlit("PLUS");
    reveal_strlit("STAR");
    reveal_strlit("SLASH");
    reveal_strlit("CARET");
    reveal_strlit("PERCENT");
    reveal_strlit("UNDERSCORE");
    reveal_strlit("DOT");
    reveal_strlit("DOT2");
    reveal_strlit("DOT3");
    reveal_strlit("DOT2EQ");
    reveal_strlit("COLON");
    reveal_strlit("COLON2");
    reveal_strlit("EQ");
    reveal_strlit("EQ2");
    reveal_strlit("FAT_ARROW");
    reveal_strlit("BANG");
    reveal_strlit("NEQ");
    reveal_strlit("MINUS");
    reveal_strlit("THIN_ARROW");
    reveal_strlit("LTEQ");
    reveal_strlit("GTEQ");
    reveal_strlit("PLUSEQ");
    reveal_strlit("MINUSEQ");
    reveal_strlit("PIPEEQ");
    reveal_strlit("AMPEQ");
    reveal_strlit("CARETEQ");
    reveal_strlit("SLASHEQ");
    reveal_strlit("STAREQ");
    reveal_strlit("PERCENTEQ");
    reveal_strlit("AMP2");
    reveal_strlit("PIPE2");
    reveal_strlit("SHL");
    reveal_strlit("SHR");
    reveal_strlit("SHLEQ");
    reveal_strlit("SHREQ");
    assert("SEMICOLON"@ =~= seq!['S', 'E', 'M', 'I', 'C', 'O', 'L', 'O', 'N']);
    assert("COMMA"@ =~= seq!['C', 'O', 'M', 'M', 'A']);
    assert("L_PAREN"@ =~= seq!['L', '_', 'P', 'A', 'R', 'E', 'N']);
    assert("R_PAREN"@ =~= seq!['R', '_', 'P', 'A', 'R', 'E', 'N']);
    assert("L_CURLY"@ =~= seq!['L', '_', 'C', 'U', 'R', 'L', 'Y']);
    assert("R_CURLY"@ =~= seq!['R', '_', 'C', 'U', 'R', 'L', 'Y']);
    assert("L_BRACK"@ =~= seq!['L', '_', 'B', 'R', 'A', 'C', 'K']);
    assert("R_BRACK"@ =~= seq!['R', '_', 'B', 'R', 'A', 'C', 'K']);
    assert("L_ANGLE"@ =~= seq!['L', '_', 'A', 'N', 'G', 'L', 'E']);
    assert("R_ANGLE"@ =~= seq!['R', '_', 'A', 'N', 'G', 'L', 'E']);
    assert("AT"@ =~= seq!['A', 'T']);
    assert("POUND"@ =~= seq!['P', 'O', 'U', 'N', 'D']);
    assert("TILDE"@ =~= seq!['T', 'I', 'L', 'D', 'E']);
    assert("QUESTION"@ =~= seq!['Q', 'U', 'E', 'S', 'T', 'I', 'O', 'N']);
    assert("AMP"@ =~= seq!['A', 'M', 'P']);
    assert("PIPE"@ =~= seq!['P', 'I', 'P', 'E']);
    assert("PLUS"@ =~= seq!['P', 'L', 'U', 'S']);
    assert("STAR"@ =~= seq!['S', 'T', 'A', 'R']);
    assert("SLASH"@ =~= seq!['S', 'L', 'A', 'S', 'H']);
    assert("CARET"@ =~= seq!['C', 'A', 'R', 'E', 'T']);
    assert("PERCENT"@ =~= seq!['P', 'E', 'R', 'C', 'E', 'N', 'T']);
    assert("UNDERSCORE"@ =~= seq!['U', 'N', 'D', 'E', 'R', 'S', 'C', 'O', 'R', 'E']);
    assert("DOT"@ =~= seq!['D', 'O', 'T']);
    assert("DOT2"@ =~= seq!['D', 'O', 'T', '2']);
    assert("DOT3"@ =~= seq!['D', 'O', 'T', '3']);
    assert("DOT2EQ"@ =~= seq!['D', 'O', 'T', '2', 'E', 'Q']);
    assert("COLON"@ =~= seq!['C', 'O', 'L', 'O', 'N']);
    assert("COLON2"@ =~= seq!['C', 'O', 'L', 'O', 'N', '2']);
    assert("EQ"@ =~= seq!['E', 'Q']);
    assert("EQ2"@ =~= seq!['E', 'Q', '2']);
    assert("FAT_ARROW"@ =~= seq!['F', 'A', 'T', '_', 'A', 'R', 'R', 'O', 'W']);
    assert("BANG"@ =~= seq!['B', 'A', 'N', 'G']);
    assert("NEQ"@ =~= seq!['N', 'E', 'Q']);
    assert("MINUS"@ =~= seq!['M', 'I', 'N', 'U', 'S']);
    assert("THIN_ARROW"@ =~= seq!['T', 'H', 'I', 'N', '_', 'A', 'R', 'R', 'O', 'W']);
    assert("LTEQ"@ =~= seq!['L', 'T', 'E', 'Q']);
    assert("GTEQ"@ =~= seq!['G', 'T', 'E', 'Q']);
    assert("PLUSEQ"@ =~= seq!['P', 'L', 'U', 'S', 'E', 'Q']);
    assert("MINUSEQ"@ =~= seq!['M', 'I', 'N', 'U', 'S', 'E', 'Q']);
    assert("PIPEEQ"@ =~= seq!['P', 'I', 'P', 'E', 'E', 'Q']);
    assert("AMPEQ"@ =~= seq!['A', 'M', 'P', 'E', 'Q']);
    assert("CARETEQ"@ =~= seq!['C', 'A', 'R', 'E', 'T', 'E', 'Q']);
    assert("SLASHEQ"@ =~= seq!['S', 'L', 'A', 'S', 'H', 'E', 'Q']);
    assert("STAREQ"@ =~= seq!['S', 'T', 'A', 'R', 'E', 'Q']);
    assert("PERCENTEQ"@ =~= seq!['P', 'E', 'R', 'C', 'E', 'N', 'T', 'E', 'Q']);
    assert("AMP2"@ =~= seq!['A', 'M', 'P', '2']);
    assert("PIPE2"@ =~= seq!['P', 'I', 'P', 'E', '2']);
    assert("SHL"@ =~= seq!['S', 'H', 'L']);
    assert("SHR"@ =~= seq!['S', 'H', 'R']);
    assert("SHLEQ"@ =~= seq!['S', 'H', 'L', 'E', 'Q']);
    assert("SHREQ"@ =~= seq!['S', 'H', 'R', 'E', 'Q']);
    if a == ";"@ {
        assert(punct_of_kind("SEMICOLON"@) == a);
    } else if a == ","@ {
        assert(punct_of_kind("COMMA"@) == a);
    } else if a == "("@ {
        assert(punct_of_kind("L_PAREN"@) == a);
    } else if a == ")"@ {
        assert(punct_of_kind("R_PAREN"@) == a);
    } else if a == "{"@ {
        assert(punct_of_kind("L_CURLY"@) == a);
    } else if a == "}"@ {
        assert(punct_of_kind("R_CURLY"@) == a);
    } else if a == "["@ {
        assert(punct_of_kind("L_BRACK"@) == a);
    } else if a == "]"@ {
        assert(punct_of_kind("R_BRACK"@) == a);
    } else if a == "<"@ {
        assert(punct_of_kind("L_ANGLE"@) == a);
    } else if a == ">"@ {
        assert(punct_of_kind("R_ANGLE"@) == a);
    } else if a == "@"@ {
        assert(punct_of_kind("AT"@) == a);
    } else if a == "#"@ {
        assert(punct_of_kind("POUND"@) == a);
    } else if a == "~"@ {
        assert(punct_of_kind("TILDE"@) == a);
    } else if a == "?"@ {
        assert(punct_of_kind("QUESTION"@) == a);
    } else if a == "&"@ {
        assert(punct_of_kind("AMP"@) == a);
    } else if a == "|"@ {
        assert(punct_of_kind("PIPE"@) == a);
    } else if a == "+"@ {
        assert(punct_of_kind("PLUS"@) == a);
    } else if a == "*"@ {
        assert(punct_of_kind("STAR"@) == a);
    } else if a == "/"@ {
        assert(punct_of_kind("SLASH"@) == a);
    } else if a == "^"@ {
        assert(punct_of_kind("CARET"@) == a);
    } else if a == "%"@ {
        assert(punct_of_kind("PERCENT"@) == a);
    } else if a == "_"@ {
        assert(punct_of_kind("UNDERSCORE"@) == a);
    } else if a == "."@ {
        assert(punct_of_kind("DOT"@) == a);
    } else if a == ".."@ {
        assert(punct_of_kind("DOT2"@) == a);
    } else if a == "..."@ {
        assert(punct_of_kind("DOT3"@) == a);
    } else if a == "..="@ {
        assert(punct_of_kind("DOT2EQ"@) == a);
    } else if a == ":"@ {
        assert(punct_of_kind("COLON"@) == a);
    } else if a == "::"@ {
        assert(punct_of_kind("COLON2"@) == a);
    } else if a == "="@ {
        assert(punct_of_kind("EQ"@) == a);
    } else if a == "=="@ {
        assert(punct_of_kind("EQ2"@) == a);
    } else if a == "=>"@ {
        assert(punct_of_kind("FAT_ARROW"@) == a);
    } else if a == "!"@ {
        assert(punct_of_kind("BANG"@) == a);
    } else if a == "!="@ {
        assert(punct_of_kind("NEQ"@) == a);
    } else if a == "-"@ {
        assert(punct_of_kind("MINUS"@) == a);
    } else if a == "->"@ {
        assert(punct_of_kind("THIN_ARROW"@) == a);
    } else if a == "<="@ {
        assert(punct_of_kind("LTEQ"@) == a);
    } else if a == ">="@ {
        assert(punct_of_kind("GTEQ"@) == a);
    } else if a == "+="@ {
        assert(punct_of_kind("PLUSEQ"@) == a);
    } else if a == "-="@ {
        assert(punct_of_kind("MINUSEQ"@) == a);
    } else if a == "|="@ {
        assert(punct_of_kind("PIPEEQ"@) == a);
    } else if a == "&="@ {
        assert(punct_of_kind("AMPEQ"@) == a);
    } else if a == "^="@ {
        assert(punct_of_kind("CARETEQ"@) == a);
    } else if a == "/="@ {
        assert(punct_of_kind("SLASHEQ"@) == a);
    } else if a == "*="@ {
        assert(punct_of_kind("STAREQ"@) == a);
    } else if a == "%="@ {
        assert(punct_of_kind("PERCENTEQ"@) == a);
    } else if a == "&&"@ {
        assert(punct_of_kind("AMP2"@) == a);
    } else if a == "||"@ {
        assert(punct_of_kind("PIPE2"@) == a);
    } else if a == "<<"@ {
        assert(punct_of_kind("SHL"@) == a);
    } else if a == ">>"@ {
        assert(punct_of_kind("SHR"@) == a);
    } else if a == "<<="@ {
        assert(punct_of_kind("SHLEQ"@) == a);
    } else if a == ">>="@ {
        assert(punct_of_kind("SHREQ"@) == a);
    }
}

/// No two operator or punctuation tokens share a kind.
pub proof fn lemma_punct_kinds_distinct(a: Seq<char>, b: Seq<char>)
    ensures
        punct_json_kind(a) is Some && punct_json_kind(b) is Some && a != b
            ==> punct_json_kind(a) != punct_json_kind(b),
{
    lemma_punct_kind_unique(a);
    lemma_punct_kind_unique(b);
}

/// The JSON kind of an operator or punctuation token, if the token is one.
pub fn token_operator_or_punct_to_json_kind(token: &str) -> (res: Option<&'static str>)
    ensures
        match res {
            Some(kind) => punct_json_kind(token@) == Some(kind@),
            None => punct_json_kind(token@) is None,
        },
{
    if same_text(token, ";") {
        Some("SEMICOLON")
    } else if same_text(token, ",") {
        Some("COMMA")
    } else if same_text(token, "(") {
        Some("L_PAREN")
    } else if same_text(token, ")") {
        Some("R_PAREN")
    } else if same_text(token, "{") {
        Some("L_CURLY")
    } else if same_text(token, "}") {
        Some("R_CURLY")
    } else if same_text(token, "[") {
        Some("L_BRACK")
    } else if same_text(token, "]") {
        Some("R_BRACK")
    } else if same_text(token, "<") {
        Some("L_ANGLE")
    } else if same_text(token, ">") {
        Some("R_ANGLE")
    } else if same_text(token, "@") {
        Some("AT")
    } else if same_text(token, "#") {
        Some("POUND")
    } else if same_text(token, "~") {
        Some("TILDE")
    } else if same_text(token, "?") {
        Some("QUESTION")
    } else if same_text(token, "&") {
        Some("AMP")
    } else if same_text(token, "|") {
        Some("PIPE")
    } else if same_text(token, "+") {
        Some("PLUS")
    } else if same_text(token, "*") {
        Some("STAR")
    } else if same_text(token, "/") {
        Some("SLASH")
    } else if same_text(token, "^") {
        Some("CARET")
    } else if same_text(token, "%") {
        Some("PERCENT")
    } else if same_text(token, "_") {
        Some("UNDERSCORE")
    } else if same_text(token, ".") {
        Some("DOT")
    } else if same_text(token, "..") {
        Some("DOT2")
    } else if same_text(token, "...") {
        Some("DOT3")
    } else if same_text(token, "..=") {
        Some("DOT2EQ")
    } else if same_text(token, ":") {
        Some("COLON")
    } else if same_text(token, "::") {
        Some("COLON2")
    } else if same_text(token, "=") {
        Some("EQ")
    } else if same_text(token, "==") {
        Some("EQ2")
    } else if same_text(token, "=>") {
        Some("FAT_ARROW")
    } else if same_text(token, "!") {
        Some("BANG")
    } else if same_text(token, "!=") {
        Some("NEQ")
    } else if same_text(token, "-") {
        Some("MINUS")
    } else if same_text(token, "->") {
        Some("THIN_ARROW")
    } else if same_text(token, "<=") {
        Some("LTEQ")
    } else if same_text(token, ">=") {
        Some("GTEQ")
    } else if same_text(token, "+=") {
        Some("PLUSEQ")
    } else if same_text(token, "-=") {
        Some("MINUSEQ")
    } else if same_text(token, "|=") {
        Some("PIPEEQ")
    } else if same_text(token, "&=") {
        Some("AMPEQ")
    } else if same_text(token, "^=") {
        Some("CARETEQ")
    } else if same_text(token, "/=") {
        Some("SLASHEQ")
    } else if same_text(token, "*=") {
        Some("STAREQ")
    } else if same_text(token, "%=") {
        Some("PERCENTEQ")
    } else if same_text(token, "&&") {
        Some("AMP2")
    } else if same_text(token, "||") {
        Some("PIPE2")
    } else if same_text(token, "<<") {
        Some("SHL")
    } else if same_text(token, ">>") {
        Some("SHR")
    } else if same_text(token, "<<=") {
        Some("SHLEQ")
    } else if same_text(token, ">>=") {
        Some("SHREQ")
    } else {
        None
    }
}

/// The name of the Scala class of a grammar node: the node's own name.
pub fn node_name_to_scala_name(node: &str) -> (res: String)
    ensures
        res@ == node@,
{
    node.to_owned()
}

/// The JSON kind of a grammar node, e.g. `BlockExpr` to `BLOCK_EXPR`. It must
/// match the node kinds of the JSON representation.
pub fn node_name_to_json_kind(node: &str) -> (res: String)
    ensures
        res@ == shouty_snake_case(node@),
{
    to_shouty_snake_case(node)
}

/// The JSON kind of a grammar token: that of the operator or punctuation
/// table; for `#ident` or `@int_number` the rest of the name in
/// SHOUTY_SNAKE_CASE; `SELF_TYPE_KW` for `Self`; otherwise a keyword, as in
/// `fn` to `FN_KW`.
pub open spec fn token_json_kind(token: Seq<char>) -> Seq<char> {
    match punct_json_kind(token) {
        Some(kind) => kind,
        None => if token.len() > 0 && (token[0] == '#' || token[0] == '@') {
            shouty_snake_case(token.drop_first())
        } else if token == "Self"@ {
            "SELF_TYPE_KW"@
        } else {
            shouty_snake_case(token) + "_KW"@
        },
    }
}

/// A token in the operator and punctuation table has the table's kind, before
/// any other rule is tried: `#` is `POUND` and `@` is `AT`, though other
/// tokens that begin with them are named by what follows.
pub proof fn lemma_token_kind_follows_table(token: Seq<char>)
    ensures
        punct_json_kind(token) matches Some(k) ==> token_json_kind(token) == k,
{
}

/// The JSON kind of a token that is neither in the table nor begins with `#`
/// or `@` is a keyword's kind: it ends in `_KW`, which no kind of the table
/// does.
pub proof fn lemma_keyword_kinds(token: Seq<char>)
    ensures
        punct_json_kind(token) is None && !(token.len() > 0 && (token[0] == '#' || token[0] == '@'))
            ==> ends_in_kw(token_json_kind(token)),
{
    reveal_strlit("_KW");
    reveal_strlit("SELF_TYPE_KW");
    let k = token_json_kind(token);
    if punct_json_kind(token) is None && !(token.len() > 0 && (token[0] == '#' || token[0] == '@'))
        && token != "Self"@ {
        let s = shouty_snake_case(token);
        assert(k == s + "_KW"@);
        assert(k[k.len() - 3] == '_');
        assert(k[k.len() - 2] == 'K');
        assert(k[k.len() - 1] == 'W');
    }
}

/// The Scala name of a token spells out only the side of a bracket: a kind
/// that does not begin with `L_` or `R_` is left as it is, and one that does
/// keeps everything after those two characters.
pub proof fn lemma_spelled_out_kind(kind: Seq<char>)
    ensures
        !(kind.len() >= 2 && (kind[0] == 'L' || kind[0] == 'R') && kind[1] == '_')
            ==> spelled_out_kind(kind) == kind,
        kind.len() >= 2 && (kind[0] == 'L' || kind[0] == 'R') && kind[1] == '_'
            ==> spelled_out_kind(kind).len() >= 2 && spelled_out_kind(kind).skip(spelled_out_kind(kind).len() - (kind.len() - 2)) == kind.skip(2),
{
    reveal_strlit("LEFT_");
    reveal_strlit("RIGHT_");
    if kind.len() >= 2 && (kind[0] == 'L' || kind[0] == 'R') && kind[1] == '_' {
        let t = spelled_out_kind(kind);
        assert(t.skip(t.len() - (kind.len() - 2)) =~= kind.skip(2));
    }
}


/// The JSON kind of a grammar token. It must match the node kinds of the
/// JSON representation.
pub fn token_name_to_json_kind(token: &str) -> (res: String)
    ensures
        res@ == token_json_kind(token@),
{
    if let Some(json_kind) = token_operator_or_punct_to_json_kind(token) {
        return json_kind.to_owned();
    }
    let n = token.unicode_len();
    if n > 0 {
        let first = token.get_char(0);
        if first == '#' || first == '@' {
            let inner = token.substring_char(1, n);
            proof {
                assert(inner@ == token@.drop_first());
            }
            return to_shouty_snake_case(inner);
        }
    }
    if same_text(token, "Self") {
        return "SELF_TYPE_KW".to_owned();
    }
    let mut kind = to_shouty_snake_case(token);
    kind.append("_KW");
    kind
}

/// A JSON kind with the side of a bracket spelled out: a leading `L_` becomes
/// `LEFT_` and a leading `R_` becomes `RIGHT_`, as in `L_PAREN` to
/// `LEFT_PAREN`; any other kind is unchanged.
pub open spec fn spelled_out_kind(kind: Seq<char>) -> Seq<char> {
    if kind.len() >= 2 && kind[0] == 'L' && kind[1] == '_' {
        "LEFT_"@ + kind.skip(2)
    } else if kind.len() >= 2 && kind[0] == 'R' && kind[1] == '_' {
        "RIGHT_"@ + kind.skip(2)
    } else {
        kind
    }
}

/// The name of the Scala class of a grammar token: its JSON kind, with the
/// side of a bracket spelled out, in lowerCamelCase; `fn` gives `fnKw` and
/// `(` gives `leftParen`.
pub fn token_name_to_scala_name(token: &str) -> (res: String)
    ensures
        res@ == lower_camel_case(spelled_out_kind(token_json_kind(token@))),
{
    let kind = token_name_to_json_kind(token);
    let n = kind.unicode_len();
    if n >= 2 && kind.get_char(1) == '_' {
        let first = kind.get_char(0);
        if first == 'L' || first == 'R' {
            let rest = kind.substring_char(2, n);
            let mut spelled = if first == 'L' { "LEFT_".to_owned() } else { "RIGHT_".to_owned() };
            spelled.append(rest);
            proof {
                reveal_strlit("LEFT_");
                reveal_strlit("RIGHT_");
                assert(rest@ == kind@.skip(2));
            }
            return to_lower_camel_case(spelled.as_str());
        }
    }
    to_lower_camel_case(kind.as_str())
}

} // verus!

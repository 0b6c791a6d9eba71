//! Reserved words.

use vstd::prelude::*;

verus! {

/// A reserved word. Reserved words are no identifiers.
#[derive(Debug, Clone, Copy, PartialEq, Eq, Structural)]
pub enum Keyword {
    Select,
    From,
    Where,
    Order,
    By,
    Limit,
    Asc,
    Desc,
    Insert,
    Into,
    Values,
    Update,
    Assign,
    Delete,
    Vacuum,
    Checkpoint,
    Create,
    Drop,
    Index,
    On,
    Using,
    And,
    Or,
    Not,
    In,
    Between,
    Is,
    Null,
    True,
    False,
    As,
}

/// The upper-case form of an ASCII letter; other characters are unchanged.
pub open spec fn upper_char(c: char) -> char {
    if 'a' <= c <= 'z' {
        (c as int - 32) as char
    } else {
        c
    }
}

/// `s` with ASCII letters in upper case.
pub open spec fn upper(s: Seq<char>) -> Seq<char> {
    Seq::new(s.len(), |i: int| upper_char(s[i]))
}

/// Whether `a` and `b` are equal up to the case of ASCII letters.
pub open spec fn same_ignoring_case(a: Seq<char>, b: Seq<char>) -> bool {
    upper(a) == upper(b)
}

/// The canonical spelling of a reserved word.
pub open spec fn keyword_text(k: Keyword) -> Seq<char> {
    match k {
        Keyword::Select => "SELECT"@,
        Keyword::From => "FROM"@,
        Keyword::Where => "WHERE"@,
        Keyword::Order => "ORDER"@,
        Keyword::By => "BY"@,
        Keyword::Limit => "LIMIT"@,
        Keyword::Asc => "ASC"@,
        Keyword::Desc => "DESC"@,
        Keyword::Insert => "INSERT"@,
        Keyword::Into => "INTO"@,
        Keyword::Values => "VALUES"@,
        Keyword::Update => "UPDATE"@,
        Keyword::Assign => "SET"@,
        Keyword::Delete => "DELETE"@,
        Keyword::Vacuum => "VACUUM"@,
        Keyword::Checkpoint => "CHECKPOINT"@,
        Keyword::Create => "CREATE"@,
        Keyword::Drop => "DROP"@,
        Keyword::Index => "INDEX"@,
        Keyword::On => "ON"@,
        Keyword::Using => "USING"@,
        Keyword::And => "AND"@,
        Keyword::Or => "OR"@,
        Keyword::Not => "NOT"@,
        Keyword::In => "IN"@,
        Keyword::Between => "BETWEEN"@,
        Keyword::Is => "IS"@,
        Keyword::Null => "NULL"@,
        Keyword::True => "TRUE"@,
        Keyword::False => "FALSE"@,
        Keyword::As => "AS"@,
    }
}

/// The reserved word that `w` spells, in any letter case.
pub open spec fn keyword_of(w: Seq<char>) -> Option<Keyword> {
    let u = upper(w);
    if u == keyword_text(Keyword::Select) {
        Some(Keyword::Select)
    } else if u == keyword_text(Keyword::From) {
        Some(Keyword::From)
    } else if u == keyword_text(Keyword::Where) {
        Some(Keyword::Where)
    } else if u == keyword_text(Keyword::Order) {
        Some(Keyword::Order)
    } else if u == keyword_text(Keyword::By) {
        Some(Keyword::By)
    } else if u == keyword_text(Keyword::Limit) {
        Some(Keyword::Limit)
    } else if u == keyword_text(Keyword::Asc) {
        Some(Keyword::Asc)
    } else if u == keyword_text(Keyword::Desc) {
        Some(Keyword::Desc)
    } else if u == keyword_text(Keyword::Insert) {
        Some(Keyword::Insert)
    } else if u == keyword_text(Keyword::Into) {
        Some(Keyword::Into)
    } else if u == keyword_text(Keyword::Values) {
        Some(Keyword::Values)
    } else if u == keyword_text(Keyword::Update) {
        Some(Keyword::Update)
    } else if u == keyword_text(Keyword::Assign) {
        Some(Keyword::Assign)
    } else if u == keyword_text(Keyword::Delete) {
        Some(Keyword::Delete)
    } else if u == keyword_text(Keyword::Vacuum) {
        Some(Keyword::Vacuum)
    } else if u == keyword_text(Keyword::Checkpoint) {
        Some(Keyword::Checkpoint)
    } else if u == keyword_text(Keyword::Create) {
        Some(Keyword::Create)
    } else if u == keyword_text(Keyword::Drop) {
        Some(Keyword::Drop)
    } else if u == keyword_text(Keyword::Index) {
        Some(Keyword::Index)
    } else if u == keyword_text(Keyword::On) {
        Some(Keyword::On)
    } else if u == keyword_text(Keyword::Using) {
        Some(Keyword::Using)
    } else if u == keyword_text(Keyword::And) {
        Some(Keyword::And)
    } else if u == keyword_text(Keyword::Or) {
        Some(Keyword::Or)
    } else if u == keyword_text(Keyword::Not) {
        Some(Keyword::Not)
    } else if u == keyword_text(Keyword::In) {
        Some(Keyword::In)
    } else if u == keyword_text(Keyword::Between) {
        Some(Keyword::Between)
    } else if u == keyword_text(Keyword::Is) {
        Some(Keyword::Is)
    } else if u == keyword_text(Keyword::Null) {
        Some(Keyword::Null)
    } else if u == keyword_text(Keyword::True) {
        Some(Keyword::True)
    } else if u == keyword_text(Keyword::False) {
        Some(Keyword::False)
    } else if u == keyword_text(Keyword::As) {
        Some(Keyword::As)
    } else {
        None
    }
}

/// Reserved words are the same in any letter case.
pub proof fn law_keywords_ignore_case(v: Seq<char>, w: Seq<char>)
    requires
        same_ignoring_case(v, w),
    ensures
        keyword_of(v) == keyword_of(w),
{
}

/// Two texts are the same in any letter case exactly where they are as long
/// and, place by place, the characters are the same or one is the lower-case
/// and the other the upper-case form of an ASCII letter.
pub proof fn law_letter_case(a: Seq<char>, b: Seq<char>)
    ensures
        same_ignoring_case(a, b) <==> a.len() == b.len() && forall|i: int|
            0 <= i < a.len() ==> {
                let (x, y) = (#[trigger] a[i] as int, b[i] as int);
                x == y || 97 <= x <= 122 && y == x - 32 || 97 <= y <= 122 && x == y - 32
            },
{
    if same_ignoring_case(a, b) {
        assert(upper(a).len() == upper(b).len());
        assert forall|i: int| 0 <= i < a.len() implies {
            let (x, y) = (#[trigger] a[i] as int, b[i] as int);
            x == y || 97 <= x <= 122 && y == x - 32 || 97 <= y <= 122 && x == y - 32
        } by {
            assert(upper(a)[i] == upper_char(a[i]));
            assert(upper(b)[i] == upper_char(b[i]));
            assert(upper(a)[i] == upper(b)[i]);
        }
    }
    if a.len() == b.len() && forall|i: int|
        0 <= i < a.len() ==> {
            let (x, y) = (#[trigger] a[i] as int, b[i] as int);
            x == y || 97 <= x <= 122 && y == x - 32 || 97 <= y <= 122 && x == y - 32
        } {
        assert forall|i: int| 0 <= i < a.len() implies upper(a)[i] == upper(b)[i] by {
            let (x, y) = (a[i] as int, b[i] as int);
            if x == y {
                assert(a[i] == b[i]);
            }
        }
        assert(upper(a) =~= upper(b));
    }
}

/// The upper-case form of an ASCII letter.
pub fn exec_upper_char(c: char) -> (r: char)
    ensures
        r == upper_char(c),
{
    match c {
        'a' => 'A',
        'b' => 'B',
        'c' => 'C',
        'd' => 'D',
        'e' => 'E',
        'f' => 'F',
        'g' => 'G',
        'h' => 'H',
        'i' => 'I',
        'j' => 'J',
        'k' => 'K',
        'l' => 'L',
        'm' => 'M',
        'n' => 'N',
        'o' => 'O',
        'p' => 'P',
        'q' => 'Q',
        'r' => 'R',
        's' => 'S',
        't' => 'T',
        'u' => 'U',
        'v' => 'V',
        'w' => 'W',
        'x' => 'X',
        'y' => 'Y',
        'z' => 'Z',
        _ => c,
    }
}

/// Whether `a` and `b` are equal up to the case of ASCII letters.
pub fn eq_ignore_case(a: &str, b: &str) -> (r: bool)
    ensures
        r == same_ignoring_case(a@, b@),
{
    let x: Vec<char> = crate::text::chars_of(a);
    let y: Vec<char> = crate::text::chars_of(b);
    if x.len() != y.len() {
        assert(upper(a@).len() != upper(b@).len());
        return false;
    }
    let mut i: usize = 0;
    while i < x.len()
        invariant
            i <= x.len(),
            x.len() == y.len(),
            x@ == a@,
            y@ == b@,
            forall|j: int| 0 <= j < i ==> upper(a@)[j] == upper(b@)[j],
        decreases x.len() - i,
    {
        if exec_upper_char(x[i]) != exec_upper_char(y[i]) {
            assert(upper(a@)[i as int] != upper(b@)[i as int]);
            return false;
        }
        i = i + 1;
    }
    assert(upper(a@) =~= upper(b@));
    true
}

/// No two reserved words are spelt alike.
proof fn lemma_distinct(j: Keyword, k: Keyword)
    requires
        j != k,
    ensures
        keyword_text(j) != keyword_text(k),
{
    reveal_strlit("SELECT");
    reveal_strlit("FROM");
    reveal_strlit("WHERE");
    reveal_strlit("ORDER");
    reveal_strlit("BY");
    reveal_strlit("LIMIT");
    reveal_strlit("ASC");
    reveal_strlit("DESC");
    reveal_strlit("INSERT");
    reveal_strlit("INTO");
    reveal_strlit("VALUES");
    reveal_strlit("UPDATE");
    reveal_strlit("SET");
    reveal_strlit("DELETE");
    reveal_strlit("VACUUM");
    reveal_strlit("CHECKPOINT");
    reveal_strlit("CREATE");
    reveal_strlit("DROP");
    reveal_strlit("INDEX");
    reveal_strlit("ON");
    reveal_strlit("USING");
    reveal_strlit("AND");
    reveal_strlit("OR");
    reveal_strlit("NOT");
    reveal_strlit("IN");
    reveal_strlit("BETWEEN");
    reveal_strlit("IS");
    reveal_strlit("NULL");
    reveal_strlit("TRUE");
    reveal_strlit("FALSE");
    reveal_strlit("AS");
    let a = keyword_text(j);
    let b = keyword_text(k);
    if a == b {
        assert(a.len() == b.len());
        assert(a[0] == b[0] && a[1] == b[1] && a[2] == b[2]);
    }
}

/// Every canonical spelling is in upper case and spells its own word.
pub proof fn lemma_keyword_text(k: Keyword)
    ensures
        keyword_of(keyword_text(k)) == Some(k),
        upper(keyword_text(k)) == keyword_text(k),
{
    assert(upper(keyword_text(k)) =~= keyword_text(k)) by {
        reveal_strlit("SELECT");
        reveal_strlit("FROM");
        reveal_strlit("WHERE");
        reveal_strlit("ORDER");
        reveal_strlit("BY");
        reveal_strlit("LIMIT");
        reveal_strlit("ASC");
        reveal_strlit("DESC");
        reveal_strlit("INSERT");
        reveal_strlit("INTO");
        reveal_strlit("VALUES");
        reveal_strlit("UPDATE");
        reveal_strlit("SET");
        reveal_strlit("DELETE");
        reveal_strlit("VACUUM");
        reveal_strlit("CHECKPOINT");
        reveal_strlit("CREATE");
        reveal_strlit("DROP");
        reveal_strlit("INDEX");
        reveal_strlit("ON");
        reveal_strlit("USING");
        reveal_strlit("AND");
        reveal_strlit("OR");
        reveal_strlit("NOT");
        reveal_strlit("IN");
        reveal_strlit("BETWEEN");
        reveal_strlit("IS");
        reveal_strlit("NULL");
        reveal_strlit("TRUE");
        reveal_strlit("FALSE");
        reveal_strlit("AS");
    }
    if k != Keyword::Select {
        lemma_distinct(k, Keyword::Select);
    }
    if k != Keyword::From {
        lemma_distinct(k, Keyword::From);
    }
    if k != Keyword::Where {
        lemma_distinct(k, Keyword::Where);
    }
    if k != Keyword::Order {
        lemma_distinct(k, Keyword::Order);
    }
    if k != Keyword::By {
        lemma_distinct(k, Keyword::By);
    }
    if k != Keyword::Limit {
        lemma_distinct(k, Keyword::Limit);
    }
    if k != Keyword::Asc {
        lemma_distinct(k, Keyword::Asc);
    }
    if k != Keyword::Desc {
        lemma_distinct(k, Keyword::Desc);
    }
    if k != Keyword::Insert {
        lemma_distinct(k, Keyword::Insert);
    }
    if k != Keyword::Into {
        lemma_distinct(k, Keyword::Into);
    }
    if k != Keyword::Values {
        lemma_distinct(k, Keyword::Values);
    }
    if k != Keyword::Update {
        lemma_distinct(k, Keyword::Update);
    }
    if k != Keyword::Assign {
        lemma_distinct(k, Keyword::Assign);
    }
    if k != Keyword::Delete {
        lemma_distinct(k, Keyword::Delete);
    }
    if k != Keyword::Vacuum {
        lemma_distinct(k, Keyword::Vacuum);
    }
    if k != Keyword::Checkpoint {
        lemma_distinct(k, Keyword::Checkpoint);
    }
    if k != Keyword::Create {
        lemma_distinct(k, Keyword::Create);
    }
    if k != Keyword::Drop {
        lemma_distinct(k, Keyword::Drop);
    }
    if k != Keyword::Index {
        lemma_distinct(k, Keyword::Index);
    }
    if k != Keyword::On {
        lemma_distinct(k, Keyword::On);
    }
    if k != Keyword::Using {
        lemma_distinct(k, Keyword::Using);
    }
    if k != Keyword::And {
        lemma_distinct(k, Keyword::And);
    }
    if k != Keyword::Or {
        lemma_distinct(k, Keyword::Or);
    }
    if k != Keyword::Not {
        lemma_distinct(k, Keyword::Not);
    }
    if k != Keyword::In {
        lemma_distinct(k, Keyword::In);
    }
    if k != Keyword::Between {
        lemma_distinct(k, Keyword::Between);
    }
    if k != Keyword::Is {
        lemma_distinct(k, Keyword::Is);
    }
    if k != Keyword::Null {
        lemma_distinct(k, Keyword::Null);
    }
    if k != Keyword::True {
        lemma_distinct(k, Keyword::True);
    }
    if k != Keyword::False {
        lemma_distinct(k, Keyword::False);
    }
    if k != Keyword::As {
        lemma_distinct(k, Keyword::As);
    }
}

/// The words that the grammar tells from other identifiers are not reserved.
pub proof fn lemma_plain_words()
    ensures
        keyword_of("embedding"@) is None,
        keyword_of("EMBEDDING"@) is None,
        keyword_of("COUNT"@) is None,
        keyword_of("id"@) is None,
        keyword_of("metadata"@) is None,
        keyword_of("HASH"@) is None,
        keyword_of("BTREE"@) is None,
        keyword_of("INVERTED"@) is None,
{
    reveal_strlit("SELECT");
    reveal_strlit("FROM");
    reveal_strlit("WHERE");
    reveal_strlit("ORDER");
    reveal_strlit("BY");
    reveal_strlit("LIMIT");
    reveal_strlit("ASC");
    reveal_strlit("DESC");
    reveal_strlit("INSERT");
    reveal_strlit("INTO");
    reveal_strlit("VALUES");
    reveal_strlit("UPDATE");
    reveal_strlit("SET");
    reveal_strlit("DELETE");
    reveal_strlit("VACUUM");
    reveal_strlit("CHECKPOINT");
    reveal_strlit("CREATE");
    reveal_strlit("DROP");
    reveal_strlit("INDEX");
    reveal_strlit("ON");
    reveal_strlit("USING");
    reveal_strlit("AND");
    reveal_strlit("OR");
    reveal_strlit("NOT");
    reveal_strlit("IN");
    reveal_strlit("BETWEEN");
    reveal_strlit("IS");
    reveal_strlit("NULL");
    reveal_strlit("TRUE");
    reveal_strlit("FALSE");
    reveal_strlit("AS");
    assert(keyword_of("embedding"@) is None) by {
        reveal_strlit("embedding");
        let u = upper("embedding"@);
        assert(u.len() == 9 && u[0] == 'E' && u[1] == 'M');
    }
    assert(keyword_of("EMBEDDING"@) is None) by {
        reveal_strlit("EMBEDDING");
        let u = upper("EMBEDDING"@);
        assert(u.len() == 9 && u[0] == 'E' && u[1] == 'M');
    }
    assert(keyword_of("COUNT"@) is None) by {
        reveal_strlit("COUNT");
        let u = upper("COUNT"@);
        assert(u.len() == 5 && u[0] == 'C' && u[1] == 'O');
    }
    assert(keyword_of("id"@) is None) by {
        reveal_strlit("id");
        let u = upper("id"@);
        assert(u.len() == 2 && u[0] == 'I' && u[1] == 'D');
    }
    assert(keyword_of("metadata"@) is None) by {
        reveal_strlit("metadata");
        let u = upper("metadata"@);
        assert(u.len() == 8 && u[0] == 'M' && u[1] == 'E');
    }
    assert(keyword_of("HASH"@) is None) by {
        reveal_strlit("HASH");
        let u = upper("HASH"@);
        assert(u.len() == 4 && u[0] == 'H' && u[1] == 'A');
    }
    assert(keyword_of("BTREE"@) is None) by {
        reveal_strlit("BTREE");
        let u = upper("BTREE"@);
        assert(u.len() == 5 && u[0] == 'B' && u[1] == 'T');
    }
    assert(keyword_of("INVERTED"@) is None) by {
        reveal_strlit("INVERTED");
        let u = upper("INVERTED"@);
        assert(u.len() == 8 && u[0] == 'I' && u[1] == 'N');
    }
}

/// The reserved word that `w` spells, in any letter case.
pub fn find_keyword(w: &str) -> (r: Option<Keyword>)
    ensures
        r == keyword_of(w@),
{
    proof {
        lemma_keyword_text(Keyword::Select);
        lemma_keyword_text(Keyword::From);
        lemma_keyword_text(Keyword::Where);
        lemma_keyword_text(Keyword::Order);
        lemma_keyword_text(Keyword::By);
        lemma_keyword_text(Keyword::Limit);
        lemma_keyword_text(Keyword::Asc);
        lemma_keyword_text(Keyword::Desc);
        lemma_keyword_text(Keyword::Insert);
        lemma_keyword_text(Keyword::Into);
        lemma_keyword_text(Keyword::Values);
        lemma_keyword_text(Keyword::Update);
        lemma_keyword_text(Keyword::Assign);
        lemma_keyword_text(Keyword::Delete);
        lemma_keyword_text(Keyword::Vacuum);
        lemma_keyword_text(Keyword::Checkpoint);
        lemma_keyword_text(Keyword::Create);
        lemma_keyword_text(Keyword::Drop);
        lemma_keyword_text(Keyword::Index);
        lemma_keyword_text(Keyword::On);
        lemma_keyword_text(Keyword::Using);
        lemma_keyword_text(Keyword::And);
        lemma_keyword_text(Keyword::Or);
        lemma_keyword_text(Keyword::Not);
        lemma_keyword_text(Keyword::In);
        lemma_keyword_text(Keyword::Between);
        lemma_keyword_text(Keyword::Is);
        lemma_keyword_text(Keyword::Null);
        lemma_keyword_text(Keyword::True);
        lemma_keyword_text(Keyword::False);
        lemma_keyword_text(Keyword::As);
    }
    if eq_ignore_case(w, "SELECT") {
        Some(Keyword::Select)
    } else if eq_ignore_case(w, "FROM") {
        Some(Keyword::From)
    } else if eq_ignore_case(w, "WHERE") {
        Some(Keyword::Where)
    } else if eq_ignore_case(w, "ORDER") {
        Some(Keyword::Order)
    } else if eq_ignore_case(w, "BY") {
        Some(Keyword::By)
    } else if eq_ignore_case(w, "LIMIT") {
        Some(Keyword::Limit)
    } else if eq_ignore_case(w, "ASC") {
        Some(Keyword::Asc)
    } else if eq_ignore_case(w, "DESC") {
        Some(Keyword::Desc)
    } else if eq_ignore_case(w, "INSERT") {
        Some(Keyword::Insert)
    } else if eq_ignore_case(w, "INTO") {
        Some(Keyword::Into)
    } else if eq_ignore_case(w, "VALUES") {
        Some(Keyword::Values)
    } else if eq_ignore_case(w, "UPDATE") {
        Some(Keyword::Update)
    } else if eq_ignore_case(w, "SET") {
        Some(Keyword::Assign)
    } else if eq_ignore_case(w, "DELETE") {
        Some(Keyword::Delete)
    } else if eq_ignore_case(w, "VACUUM") {
        Some(Keyword::Vacuum)
    } else if eq_ignore_case(w, "CHECKPOINT") {
        Some(Keyword::Checkpoint)
    } else if eq_ignore_case(w, "CREATE") {
        Some(Keyword::Create)
    } else if eq_ignore_case(w, "DROP") {
        Some(Keyword::Drop)
    } else if eq_ignore_case(w, "INDEX") {
        Some(Keyword::Index)
    } else if eq_ignore_case(w, "ON") {
        Some(Keyword::On)
    } else if eq_ignore_case(w, "USING") {
        Some(Keyword::Using)
    } else if eq_ignore_case(w, "AND") {
        Some(Keyword::And)
    } else if eq_ignore_case(w, "OR") {
        Some(Keyword::Or)
    } else if eq_ignore_case(w, "NOT") {
        Some(Keyword::Not)
    } else if eq_ignore_case(w, "IN") {
        Some(Keyword::In)
    } else if eq_ignore_case(w, "BETWEEN") {
        Some(Keyword::Between)
    } else if eq_ignore_case(w, "IS") {
        Some(Keyword::Is)
    } else if eq_ignore_case(w, "NULL") {
        Some(Keyword::Null)
    } else if eq_ignore_case(w, "TRUE") {
        Some(Keyword::True)
    } else if eq_ignore_case(w, "FALSE") {
        Some(Keyword::False)
    } else if eq_ignore_case(w, "AS") {
        Some(Keyword::As)
    } else {
        None
    }
}

} // verus!

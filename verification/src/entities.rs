//! Entity lumps: `{ "key" "value" ... }` blocks of text.
use vstd::prelude::*;
use vstd::string::StringSliceAdditionalSpecFns;
use crate::com_parse::{com_tokenize, spec_tokens};
use crate::text::{chars_of, chars_eq, eq_ignore_ascii_case, seq_eq_ignore_ascii_case};

verus! {

#[derive(Debug, Clone, PartialEq, Eq)]
pub enum EntityError {
    UnexpectedToken(String),
    UnexpectedEof,
}

pub enum EntityErrorView {
    UnexpectedToken(Seq<char>),
    UnexpectedEof,
}

#[derive(Debug, Clone, PartialEq, Eq)]
pub struct Entity {
    pairs: Vec<(String, String)>,
}

pub open spec fn pair_views(p: Seq<(String, String)>) -> Seq<(Seq<char>, Seq<char>)> {
    Seq::new(p.len(), |i: int| (p[i].0@, p[i].1@))
}

/// The key/value pairs of one entity, from token `i` up to its closing
/// brace, and the token after that brace.
pub open spec fn entity_pairs_from(toks: Seq<Seq<char>>, i: int) -> Result<(Seq<(Seq<char>, Seq<char>)>, int), EntityErrorView>
    decreases toks.len() - i,
{
    if i < 0 || i >= toks.len() {
        Err(EntityErrorView::UnexpectedEof)
    } else if toks[i] == "}"@ {
        Ok((Seq::empty(), i + 1))
    } else if i + 1 >= toks.len() {
        Err(EntityErrorView::UnexpectedEof)
    } else if toks[i + 1] == "}"@ {
        Err(EntityErrorView::UnexpectedToken(toks[i + 1]))
    } else {
        match entity_pairs_from(toks, i + 2) {
            Ok((rest, end)) => Ok((seq![(toks[i], toks[i + 1])] + rest, end)),
            Err(e) => Err(e),
        }
    }
}

pub proof fn lemma_entity_pairs_end(toks: Seq<Seq<char>>, i: int)
    ensures
        entity_pairs_from(toks, i) matches Ok((_, end)) ==> i < end <= toks.len(),
    decreases toks.len() - i,
{
    if 0 <= i < toks.len() && toks[i] != "}"@ && i + 1 < toks.len() && toks[i + 1] != "}"@ {
        lemma_entity_pairs_end(toks, i + 2);
    }
}

/// The entities from token `i` on: each a `{`, its pairs and a `}`.
pub open spec fn entities_from(toks: Seq<Seq<char>>, i: int) -> Result<Seq<Seq<(Seq<char>, Seq<char>)>>, EntityErrorView>
    decreases toks.len() - i,
{
    if i < 0 || i >= toks.len() {
        Ok(Seq::empty())
    } else if toks[i] != "{"@ {
        Err(EntityErrorView::UnexpectedToken(toks[i]))
    } else {
        match entity_pairs_from(toks, i + 1) {
            Err(e) => Err(e),
            Ok((pairs, end)) => {
                proof {
                    lemma_entity_pairs_end(toks, i + 1);
                }
                match entities_from(toks, end) {
                    Ok(rest) => Ok(seq![pairs] + rest),
                    Err(e) => Err(e),
                }
            },
        }
    }
}

/// The entities of an entity lump's text.
pub open spec fn spec_parse_entities(text: Seq<u8>) -> Result<Seq<Seq<(Seq<char>, Seq<char>)>>, EntityErrorView> {
    entities_from(spec_tokens(text, 0), 0)
}

pub open spec fn entity_error_view(e: EntityError) -> EntityErrorView {
    match e {
        EntityError::UnexpectedToken(t) => EntityErrorView::UnexpectedToken(t@),
        EntityError::UnexpectedEof => EntityErrorView::UnexpectedEof,
    }
}

impl Entity {
    pub closed spec fn spec_pairs(&self) -> Seq<(Seq<char>, Seq<char>)> {
        pair_views(self.pairs@)
    }

    /// The value of the first key equal to `key` up to ASCII case.
    pub fn get(&self, key: &str) -> (r: Option<&str>)
        ensures
            match r {
                Some(v) => exists|i: int| 0 <= i < self.spec_pairs().len()
                    && seq_eq_ignore_ascii_case(self.spec_pairs()[i].0, key@)
                    && self.spec_pairs()[i].1 == v@
                    && forall|j: int| 0 <= j < i ==> !seq_eq_ignore_ascii_case((#[trigger] self.spec_pairs()[j]).0, key@),
                None => forall|j: int| 0 <= j < self.spec_pairs().len()
                    ==> !seq_eq_ignore_ascii_case((#[trigger] self.spec_pairs()[j]).0, key@),
            },
    {
        let wanted = chars_of(key);
        let mut i: usize = 0;
        while i < self.pairs.len()
            invariant
                i <= self.pairs@.len(),
                wanted@ == key@,
                forall|j: int| 0 <= j < i ==> !seq_eq_ignore_ascii_case((#[trigger] self.spec_pairs()[j]).0, key@),
            decreases self.pairs@.len() - i,
        {
            let k = chars_of(self.pairs[i].0.as_str());
            assert(self.spec_pairs()[i as int].0 == k@);
            if eq_ignore_ascii_case(k.as_slice(), wanted.as_slice()) {
                return Some(self.pairs[i].1.as_str());
            }
            i = i + 1;
        }
        None
    }

    pub fn pairs(&self) -> (r: &[(String, String)])
        ensures
            pair_views(r@) == self.spec_pairs(),
    {
        self.pairs.as_slice()
    }
}

fn is_token(t: &String, lit: &str) -> (r: bool)
    ensures
        r == (t@ == lit@),
{
    chars_eq(chars_of(t.as_str()).as_slice(), chars_of(lit).as_slice())
}

pub open spec fn string_seq(v: Seq<String>) -> Seq<Seq<char>> {
    Seq::new(v.len(), |i: int| v[i]@)
}

/// Reads the entities of an entity lump.
pub fn parse_entities(text: &str) -> (r: Result<Vec<Entity>, EntityError>)
    ensures
        match spec_parse_entities(text.spec_bytes()) {
            Ok(ents) => r matches Ok(v) && v@.len() == ents.len()
                && forall|i: int| 0 <= i < ents.len() ==> (#[trigger] v@[i]).spec_pairs() == ents[i],
            Err(e) => r matches Err(x) && entity_error_view(x) == e,
        },
{
    let tokens = com_tokenize(text);
    let ghost toks = spec_tokens(text.spec_bytes(), 0);
    assert(string_seq(tokens@) =~= toks);
    let mut entities: Vec<Entity> = Vec::new();
    let mut i: usize = 0;
    while i < tokens.len()
        invariant
            i <= tokens@.len(),
            string_seq(tokens@) == toks,
            toks == spec_tokens(text.spec_bytes(), 0),
            entities_from(toks, 0) == match entities_from(toks, i as int) {
                Ok(rest) => Ok(Seq::new(entities@.len(), |k: int| entities@[k].spec_pairs()) + rest),
                Err(e) => Err::<Seq<Seq<(Seq<char>, Seq<char>)>>, EntityErrorView>(e),
            },
        decreases tokens@.len() - i,
    {
        assert(toks[i as int] == tokens@[i as int]@);
        if !is_token(&tokens[i], "{") {
            return Err(EntityError::UnexpectedToken(tokens[i].clone()));
        }
        let mut pairs: Vec<(String, String)> = Vec::new();
        let mut j: usize = i + 1;
        loop
            invariant_except_break
                i < j <= tokens@.len(),
                string_seq(tokens@) == toks,
                toks[i as int] == "{"@,
                entities_from(toks, 0) == match entities_from(toks, i as int) {
                    Ok(rest) => Ok(Seq::new(entities@.len(), |k: int| entities@[k].spec_pairs()) + rest),
                    Err(e) => Err::<Seq<Seq<(Seq<char>, Seq<char>)>>, EntityErrorView>(e),
                },
                toks == spec_tokens(text.spec_bytes(), 0),
                entity_pairs_from(toks, i + 1) == match entity_pairs_from(toks, j as int) {
                    Ok((rest, end)) => Ok((pair_views(pairs@) + rest, end)),
                    Err(e) => Err::<(Seq<(Seq<char>, Seq<char>)>, int), EntityErrorView>(e),
                },
            ensures
                i < j <= tokens@.len(),
                string_seq(tokens@) == toks,
                toks[i as int] == "{"@,
                entities_from(toks, 0) == match entities_from(toks, i as int) {
                    Ok(rest) => Ok(Seq::new(entities@.len(), |k: int| entities@[k].spec_pairs()) + rest),
                    Err(e) => Err::<Seq<Seq<(Seq<char>, Seq<char>)>>, EntityErrorView>(e),
                },
                toks == spec_tokens(text.spec_bytes(), 0),
                entity_pairs_from(toks, i + 1) == Ok::<(Seq<(Seq<char>, Seq<char>)>, int), EntityErrorView>((pair_views(pairs@), j as int)),
            decreases tokens@.len() - j,
        {
            if j >= tokens.len() {
                return Err(EntityError::UnexpectedEof);
            }
            assert(toks[j as int] == tokens@[j as int]@);
            if is_token(&tokens[j], "}") {
                assert(pair_views(pairs@) + Seq::empty() =~= pair_views(pairs@));
                j = j + 1;
                break;
            }
            if j + 1 >= tokens.len() {
                return Err(EntityError::UnexpectedEof);
            }
            assert(toks[j + 1] == tokens@[j + 1]@);
            if is_token(&tokens[j + 1], "}") {
                return Err(EntityError::UnexpectedToken(tokens[j + 1].clone()));
            }
            let ghost before = pair_views(pairs@);
            let key = tokens[j].clone();
            let value = tokens[j + 1].clone();
            pairs.push((key, value));
            proof {
                assert(pair_views(pairs@) =~= before.push((toks[j as int], toks[j + 1])));
                match entity_pairs_from(toks, j + 2) {
                    Ok((rest, end)) => {
                        assert(before + (seq![(toks[j as int], toks[j + 1])] + rest) =~= pair_views(pairs@) + rest);
                    },
                    Err(_) => {},
                }
            }
            j = j + 2;
        }
        let ghost before = Seq::new(entities@.len(), |k: int| entities@[k].spec_pairs());
        let entity = Entity { pairs };
        entities.push(entity);
        proof {
            assert(Seq::new(entities@.len(), |k: int| entities@[k].spec_pairs()) =~= before.push(pair_views(pairs@)));
            match entities_from(toks, j as int) {
                Ok(rest) => {
                    assert(before + (seq![pair_views(pairs@)] + rest) =~= before.push(pair_views(pairs@)) + rest);
                },
                Err(_) => {},
            }
        }
        i = j;
    }
    assert(Seq::new(entities@.len(), |k: int| entities@[k].spec_pairs()) + Seq::empty()
        =~= Seq::new(entities@.len(), |k: int| entities@[k].spec_pairs()));
    Ok(entities)
}

} // verus!

//! Turning a parsed army list into the models to place: which variants the
//! datasheets know, how many of each, and their bases and movement.
use vstd::prelude::*;

use crate::army_list::{counts_view, units_view, ParsedUnit, UnitSpec};
use crate::base_lookup::{
    has_model_spec, lookup_spec, opt_text, BaseDatabase, BaseShape, ShapeSpec,
};

verus! {

/// One line of an imported army: a model variant of a unit, how many, its
/// base and its movement numeral (inches).
pub struct ImportedModel {
    pub unit_name: String,
    pub model_name: String,
    pub count: u32,
    pub base_shape: BaseShape,
    pub movement: Option<String>,
}

/// An imported model as the contracts see it.
pub struct ImportSpec {
    pub unit_name: Seq<char>,
    pub model_name: Seq<char>,
    pub count: nat,
    pub base_shape: ShapeSpec,
    pub movement: Option<Seq<char>>,
}

impl View for ImportedModel {
    type V = ImportSpec;

    open spec fn view(&self) -> ImportSpec {
        ImportSpec {
            unit_name: self.unit_name@,
            model_name: self.model_name@,
            count: self.count as nat,
            base_shape: self.base_shape@,
            movement: opt_text(self.movement),
        }
    }
}

/// The views of imported models.
pub open spec fn imports_view(v: Seq<ImportedModel>) -> Seq<ImportSpec> {
    v.map_values(|m: ImportedModel| m@)
}

/// The variants of a unit that the database knows, in list order.
pub open spec fn known_counts(db: BaseDatabase, u: UnitSpec) -> Seq<(Seq<char>, nat)> {
    u.counts.filter(|c: (Seq<char>, nat)| has_model_spec(db.name_index(), db.model_index(), u.name, c.0))
}

/// What is placed for a unit: its known variants, or one model named like
/// the unit when it has none.
pub open spec fn spawn_counts(db: BaseDatabase, u: UnitSpec) -> Seq<(Seq<char>, nat)> {
    if known_counts(db, u).len() == 0 {
        seq![(u.name, 1nat)]
    } else {
        known_counts(db, u)
    }
}

/// The imported line for a variant of a unit.
pub open spec fn import_line(db: BaseDatabase, unit: Seq<char>, c: (Seq<char>, nat)) -> ImportSpec {
    let found = lookup_spec(db.name_index(), db.model_index(), db.first_models(), unit, c.0);
    ImportSpec { unit_name: unit, model_name: c.0, count: c.1, base_shape: found.0, movement: found.1 }
}

/// The imported lines of one unit.
pub open spec fn unit_lines(db: BaseDatabase, u: UnitSpec) -> Seq<ImportSpec> {
    spawn_counts(db, u).map_values(|c: (Seq<char>, nat)| import_line(db, u.name, c))
}

/// The imported lines of all units, unit by unit.
pub open spec fn import_plan(db: BaseDatabase, us: Seq<UnitSpec>) -> Seq<ImportSpec>
    decreases us.len(),
{
    if us.len() == 0 {
        Seq::empty()
    } else {
        import_plan(db, us.drop_last()) + unit_lines(db, us.last())
    }
}

proof fn lemma_filter_step(s: Seq<(Seq<char>, nat)>, f: spec_fn((Seq<char>, nat)) -> bool, i: int)
    requires
        0 <= i < s.len(),
    ensures
        s.take(i + 1).filter(f) == if f(s[i]) {
            s.take(i).filter(f).push(s[i])
        } else {
            s.take(i).filter(f)
        },
{
    let t = s.take(i + 1);
    assert(t.drop_last() == s.take(i));
    assert(t.last() == s[i]);
    reveal_with_fuel(Seq::<(Seq<char>, nat)>::filter, 1);
}

fn unit_imports(db: &BaseDatabase, u: &ParsedUnit) -> (r: Vec<ImportedModel>)
    ensures
        imports_view(r@) == unit_lines(*db, u@),
{
    let ghost f = |c: (Seq<char>, nat)| has_model_spec(db.name_index(), db.model_index(), u@.name, c.0);
    let ghost cs = u@.counts;
    let mut kept: Vec<(String, u32)> = Vec::new();
    for i in 0..u.model_counts.len()
        invariant
            cs == u@.counts,
            cs == counts_view(u.model_counts@),
            f == (|c: (Seq<char>, nat)| has_model_spec(db.name_index(), db.model_index(), u@.name, c.0)),
            counts_view(kept@) == cs.take(i as int).filter(f),
    {
        proof {
            lemma_filter_step(cs, f, i as int);
        }
        let (name, n) = (&u.model_counts[i].0, u.model_counts[i].1);
        if db.has_model(u.name.as_str(), name.as_str()) {
            let ghost k0 = kept@;
            kept.push((name.clone(), n));
            proof {
                assert(counts_view(kept@) =~= counts_view(k0).push(cs[i as int]));
            }
        }
    }
    proof {
        assert(cs.take(u.model_counts.len() as int) == cs);
        assert(known_counts(*db, u@) == cs.filter(f));
    }
    if kept.len() == 0 {
        kept.push((u.name.clone(), 1));
        proof {
            assert(counts_view(kept@) =~= seq![(u@.name, 1nat)]);
        }
    }
    let ghost sc = spawn_counts(*db, u@);
    let mut out: Vec<ImportedModel> = Vec::new();
    for j in 0..kept.len()
        invariant
            sc == spawn_counts(*db, u@),
            counts_view(kept@) == sc,
            imports_view(out@) == sc.take(j as int).map_values(
                |c: (Seq<char>, nat)| import_line(*db, u@.name, c),
            ),
    {
        let (shape, movement) = db.lookup(u.name.as_str(), kept[j].0.as_str());
        let line = ImportedModel {
            unit_name: u.name.clone(),
            model_name: kept[j].0.clone(),
            count: kept[j].1,
            base_shape: shape,
            movement,
        };
        let ghost o0 = out@;
        out.push(line);
        proof {
            assert(sc[j as int] == (kept@[j as int].0@, kept@[j as int].1 as nat));
            assert(imports_view(out@) =~= imports_view(o0).push(line@));
            assert(sc.take(j + 1).map_values(|c: (Seq<char>, nat)| import_line(*db, u@.name, c))
                =~= sc.take(j as int).map_values(|c: (Seq<char>, nat)| import_line(*db, u@.name, c)).push(
                import_line(*db, u@.name, sc[j as int]),
            ));
        }
    }
    proof {
        assert(sc.take(kept.len() as int) == sc);
    }
    out
}

/// The models to place for an army list: for each unit in order, the variants
/// that the datasheets know for it (or, when none is known, one model named
/// like the unit), each with its count, base shape and movement.
pub fn plan_import(units: &Vec<ParsedUnit>, db: &BaseDatabase) -> (r: Vec<ImportedModel>)
    ensures
        imports_view(r@) == import_plan(*db, units_view(units@)),
{
    let ghost us = units_view(units@);
    let mut out: Vec<ImportedModel> = Vec::new();
    proof {
        assert(us.take(0) =~= Seq::<UnitSpec>::empty());
        assert(imports_view(out@) =~= Seq::<ImportSpec>::empty());
    }
    for i in 0..units.len()
        invariant
            us == units_view(units@),
            imports_view(out@) == import_plan(*db, us.take(i as int)),
    {
        let mut lines = unit_imports(db, &units[i]);
        let ghost o0 = imports_view(out@);
        let ghost l0 = imports_view(lines@);
        out.append(&mut lines);
        proof {
            assert(us.take(i + 1).drop_last() == us.take(i as int));
            assert(us.take(i + 1).last() == units@[i as int]@);
            assert(imports_view(out@) =~= o0 + l0);
        }
    }
    proof {
        assert(us.take(units.len() as int) == us);
    }
    out
}


/// Every unit of the list is placed: it gives at least one line, and every
/// line names a variant the datasheets know for it or, when none is known,
/// the unit itself once.
pub proof fn lemma_every_unit_placed(db: BaseDatabase, u: UnitSpec)
    ensures
        unit_lines(db, u).len() >= 1,
        forall|i: int|
            0 <= i < unit_lines(db, u).len() ==> {
                let line = #[trigger] unit_lines(db, u)[i];
                &&& line.unit_name == u.name
                &&& (has_model_spec(db.name_index(), db.model_index(), u.name, line.model_name) || (
                line.model_name == u.name && line.count == 1 && unit_lines(db, u).len() == 1))
            },
{
    let f = |c: (Seq<char>, nat)| has_model_spec(db.name_index(), db.model_index(), u.name, c.0);
    let k = known_counts(db, u);
    assert(k == u.counts.filter(f));
    assert forall|i: int| 0 <= i < k.len() implies f(#[trigger] k[i]) by {
        u.counts.filter_lemma(f);
    }
}

} // verus!

use netcdf_variable::attribute::{build_cache, Attribute};
use netcdf_variable::catalog::{
    init_variable, init_variables, lookup_dimension, resolve_dimensions, Catalog, VariableInfo,
};
use netcdf_variable::dimension::{element_count, Dimension};
use netcdf_variable::error::{AccessError, ShapeFault, NC_NOERR};
use netcdf_variable::kind::{NC_CHAR, NC_DOUBLE, NC_INT};
use netcdf_variable::variable::Variable;

fn dim(name: &str, len: u64, id: i32) -> Dimension {
    Dimension { name: name.to_string(), len, id }
}

fn attr(name: &str, attrtype: i32, id: i32) -> Attribute {
    Attribute { name: name.to_string(), attrtype, id, var_id: 5, file_id: 11 }
}

fn scope_dims() -> Vec<Dimension> {
    vec![dim("time", 4, 0), dim("lat", 2, 1), dim("lon", 3, 2)]
}

fn info(name: &str, dimids: Vec<i32>, attributes: Vec<Attribute>) -> VariableInfo {
    VariableInfo { name: name.to_string(), vartype: NC_DOUBLE, dimids, attributes }
}

#[test]
fn element_count_is_the_product() {
    assert_eq!(element_count(&scope_dims()), Some(24));
    assert_eq!(element_count(&Vec::new()), Some(1));
    assert_eq!(element_count(&vec![dim("x", 7, 0)]), Some(7));
    assert_eq!(element_count(&vec![dim("x", 1 << 32, 0), dim("y", 1 << 32, 1)]), None);
    assert_eq!(
        element_count(&vec![dim("x", 1 << 32, 0), dim("y", (1 << 32) - 1, 1)]),
        Some(((1u64 << 32) - 1) << 32)
    );
    assert_eq!(
        element_count(&vec![dim("x", u64::MAX, 0), dim("y", u64::MAX, 1), dim("z", 0, 2)]),
        Some(0)
    );
}

#[test]
fn dimension_copies_are_independent() {
    let d = dim("time", 4, 0);
    let mut c = d.clone();
    assert_eq!(c.name, "time");
    assert_eq!(c.len, 4);
    assert_eq!(c.id, 0);
    c.len = 9;
    assert_eq!(d.len, 4);
    let a = attr("units", NC_CHAR, 3);
    let b = a.clone();
    assert_eq!(b.name, "units");
    assert_eq!(b.attrtype, NC_CHAR);
    assert_eq!(b.id, 3);
    assert_eq!(b.var_id, 5);
    assert_eq!(b.file_id, 11);
}

#[test]
fn cache_keeps_the_later_of_two_names() {
    let listed = vec![attr("units", NC_CHAR, 0), attr("scale", NC_DOUBLE, 1), attr("units", NC_INT, 2)];
    let cache = build_cache(&listed);
    assert_eq!(cache.len(), 2);
    assert_eq!(cache.get("units").unwrap().attrtype, NC_INT);
    assert_eq!(cache.get("units").unwrap().id, 2);
    assert_eq!(cache.get("scale").unwrap().attrtype, NC_DOUBLE);
    assert!(cache.get("offset").is_none());
}

#[test]
fn add_attribute_enters_the_cache() {
    let attrs: Vec<Attribute> = Vec::new();
    let mut v = Variable::new("t".to_string(), NC_DOUBLE, 5, 11, scope_dims(), &attrs).unwrap();
    assert_eq!(v.attribute_count(), 0);
    assert_eq!(v.add_attribute("units", NC_CHAR, NC_NOERR), Ok(()));
    assert_eq!(v.attribute_count(), 1);
    let a = v.attribute("units").unwrap();
    assert_eq!(a.name, "units");
    assert_eq!(a.attrtype, NC_CHAR);
    assert_eq!(a.id, 0);
    assert_eq!(a.var_id, 5);
    assert_eq!(a.file_id, 11);
    assert_eq!(v.len(), 24);
    assert_eq!(v.name(), "t");
}

#[test]
fn add_attribute_overwrites_one_of_that_name() {
    let attrs = vec![attr("units", NC_CHAR, 4), attr("scale", NC_DOUBLE, 1)];
    let mut v = Variable::new("t".to_string(), NC_DOUBLE, 5, 11, scope_dims(), &attrs).unwrap();
    assert_eq!(v.attribute_count(), 2);
    assert_eq!(v.add_attribute("units", NC_INT, NC_NOERR), Ok(()));
    assert_eq!(v.attribute_count(), 2);
    assert_eq!(v.attribute("units").unwrap().attrtype, NC_INT);
    assert_eq!(v.attribute("units").unwrap().id, 0);
    assert_eq!(v.attribute("scale").unwrap().attrtype, NC_DOUBLE);
    assert_eq!(v.attribute("scale").unwrap().id, 1);
}

#[test]
fn failed_attribute_write_leaves_the_cache() {
    let attrs = vec![attr("scale", NC_DOUBLE, 1)];
    let mut v = Variable::new("t".to_string(), NC_DOUBLE, 5, 11, scope_dims(), &attrs).unwrap();
    assert_eq!(v.add_attribute("units", NC_CHAR, -39), Err(AccessError::Engine(-39)));
    assert_eq!(v.attribute_count(), 1);
    assert!(v.attribute("units").is_none());
    assert!(v.attribute("scale").is_some());
}

#[test]
fn fill_value_rebuilds_the_cache() {
    let attrs = vec![attr("units", NC_CHAR, 0), attr("scale", NC_DOUBLE, 1)];
    let mut v = Variable::new("t".to_string(), NC_DOUBLE, 5, 11, scope_dims(), &attrs).unwrap();
    assert_eq!(v.attribute_count(), 2);
    assert_eq!(v.set_fill_value(NC_NOERR), Ok(()));
    // The engine now counts three attributes and lists them.
    let listed =
        vec![attr("units", NC_CHAR, 0), attr("scale", NC_DOUBLE, 1), attr("_FillValue", NC_DOUBLE, 2)];
    assert_eq!(v.update_attributes(NC_NOERR, &listed), Ok(()));
    assert_eq!(v.attribute_count(), 3);
    assert_eq!(v.attribute_count(), listed.len());
    assert_eq!(v.attribute("_FillValue").unwrap().attrtype, NC_DOUBLE);
    assert_eq!(v.attribute("_FillValue").unwrap().id, 2);
    assert!(v.attribute("units").is_some());
    assert!(v.attribute("scale").is_some());
}

#[test]
fn rebuilt_cache_forgets_what_is_not_listed() {
    let attrs = vec![attr("units", NC_CHAR, 0), attr("scale", NC_DOUBLE, 1)];
    let mut v = Variable::new("t".to_string(), NC_DOUBLE, 5, 11, scope_dims(), &attrs).unwrap();
    let listed = vec![attr("_FillValue", NC_DOUBLE, 0)];
    assert_eq!(v.update_attributes(NC_NOERR, &listed), Ok(()));
    assert_eq!(v.attribute_count(), 1);
    assert!(v.attribute("units").is_none());
    assert!(v.attribute("_FillValue").is_some());
    assert_eq!(v.update_attributes(NC_NOERR, &Vec::new()), Ok(()));
    assert_eq!(v.attribute_count(), 0);
}

#[test]
fn failed_fill_value_and_failed_count_change_nothing() {
    let attrs = vec![attr("units", NC_CHAR, 0), attr("scale", NC_DOUBLE, 1)];
    let mut v = Variable::new("t".to_string(), NC_DOUBLE, 5, 11, scope_dims(), &attrs).unwrap();
    assert_eq!(v.set_fill_value(-122), Err(AccessError::Engine(-122)));
    let listed = vec![attr("_FillValue", NC_DOUBLE, 0)];
    assert_eq!(v.update_attributes(-49, &listed), Err(AccessError::Engine(-49)));
    assert_eq!(v.attribute_count(), 2);
    assert!(v.attribute("units").is_some());
    assert!(v.attribute("_FillValue").is_none());
}

#[test]
fn dimensions_are_resolved_in_declared_order() {
    let dims = scope_dims();
    assert_eq!(lookup_dimension(&dims, 2).unwrap().name, "lon");
    assert_eq!(lookup_dimension(&dims, 0).unwrap().name, "time");
    assert!(lookup_dimension(&dims, 3).is_none());
    let resolved = resolve_dimensions(&dims, &vec![2, 0, 1]);
    let names: Vec<&str> = resolved.iter().map(|d| d.name.as_str()).collect();
    assert_eq!(names, vec!["lon", "time", "lat"]);
    let resolved = resolve_dimensions(&dims, &vec![1, 1]);
    let names: Vec<&str> = resolved.iter().map(|d| d.name.as_str()).collect();
    assert_eq!(names, vec!["lat", "lat"]);
    // An id that the scope does not know names no dimension.
    let resolved = resolve_dimensions(&dims, &vec![0, 9, 2]);
    let names: Vec<&str> = resolved.iter().map(|d| d.name.as_str()).collect();
    assert_eq!(names, vec!["time", "lon"]);
    assert!(resolve_dimensions(&dims, &Vec::new()).is_empty());
}

#[test]
fn lookup_takes_the_first_of_an_id() {
    let dims = vec![dim("a", 1, 7), dim("b", 2, 7)];
    assert_eq!(lookup_dimension(&dims, 7).unwrap().name, "a");
}

#[test]
fn init_variable_builds_the_variable() {
    let mut vars = Catalog::new();
    assert_eq!(vars.len(), 0);
    let report = info("temperature", vec![0, 2], vec![attr("units", NC_CHAR, 0)]);
    assert_eq!(init_variable(&mut vars, 11, &scope_dims(), 3, &report), Ok(()));
    assert_eq!(vars.len(), 1);
    let v = vars.get("temperature").unwrap();
    assert_eq!(v.name(), "temperature");
    assert_eq!(v.vartype(), NC_DOUBLE);
    assert_eq!(v.id(), 3);
    assert_eq!(v.grp_id(), 11);
    assert_eq!(v.len(), 12);
    assert_eq!(v.dimensions().len(), 2);
    assert_eq!(v.dimensions()[0].name, "time");
    assert_eq!(v.dimensions()[0].len, 4);
    assert_eq!(v.dimensions()[1].name, "lon");
    assert_eq!(v.dimensions()[1].id, 2);
    assert_eq!(v.attribute_count(), 1);
    assert!(vars.get("pressure").is_none());
}

#[test]
fn rediscovery_surfaces_a_written_attribute() {
    let mut vars = Catalog::new();
    let before = info("temperature", vec![0, 1, 2], Vec::new());
    assert_eq!(init_variable(&mut vars, 11, &scope_dims(), 0, &before), Ok(()));
    assert!(vars.get("temperature").unwrap().attribute("units").is_none());
    // The attribute is written, and the variable discovered once more: the
    // engine now lists the attribute.
    let attrs: Vec<Attribute> = Vec::new();
    let mut v = Variable::new("temperature".to_string(), NC_DOUBLE, 0, 11, scope_dims(), &attrs)
        .unwrap();
    assert_eq!(v.add_attribute("units", NC_CHAR, NC_NOERR), Ok(()));
    let written = v.attribute("units").unwrap().clone();
    let listed = Attribute {
        name: written.name.clone(),
        attrtype: written.attrtype,
        id: 0,
        var_id: 0,
        file_id: 11,
    };
    let after = info("temperature", vec![0, 1, 2], vec![listed]);
    assert_eq!(init_variable(&mut vars, 11, &scope_dims(), 0, &after), Ok(()));
    assert_eq!(vars.len(), 1);
    let found = vars.get("temperature").unwrap().attribute("units").unwrap();
    assert_eq!(found.name, "units");
    assert_eq!(found.attrtype, NC_CHAR);
    assert_eq!(found.var_id, 0);
    assert_eq!(found.file_id, 11);
}

#[test]
fn init_variables_numbers_the_variables() {
    let mut vars = Catalog::new();
    let reports = vec![
        info("a", vec![0], Vec::new()),
        info("b", vec![1, 2], Vec::new()),
        info("c", Vec::new(), Vec::new()),
    ];
    assert_eq!(init_variables(&mut vars, 11, &scope_dims(), &reports), Ok(()));
    assert_eq!(vars.len(), 3);
    assert_eq!(vars.get("a").unwrap().id(), 0);
    assert_eq!(vars.get("a").unwrap().len(), 4);
    assert_eq!(vars.get("b").unwrap().id(), 1);
    assert_eq!(vars.get("b").unwrap().len(), 6);
    assert_eq!(vars.get("c").unwrap().id(), 2);
    assert_eq!(vars.get("c").unwrap().len(), 1);
    assert_eq!(vars.get("c").unwrap().grp_id(), 11);
}

#[test]
fn later_variable_of_a_name_replaces_the_earlier() {
    let mut vars = Catalog::new();
    let reports = vec![
        info("a", vec![0], Vec::new()),
        info("b", vec![1], Vec::new()),
        info("a", vec![2], vec![attr("units", NC_CHAR, 0)]),
    ];
    assert_eq!(init_variables(&mut vars, 11, &scope_dims(), &reports), Ok(()));
    assert_eq!(vars.len(), 2);
    let a = vars.get("a").unwrap();
    assert_eq!(a.id(), 2);
    assert_eq!(a.len(), 3);
    assert_eq!(a.attribute_count(), 1);
    assert_eq!(vars.get("b").unwrap().id(), 1);
}

#[test]
fn init_variables_of_nothing_changes_nothing() {
    let mut vars = Catalog::new();
    assert_eq!(init_variable(&mut vars, 11, &scope_dims(), 0, &info("a", vec![0], Vec::new())), Ok(()));
    assert_eq!(init_variables(&mut vars, 11, &scope_dims(), &Vec::new()), Ok(()));
    assert_eq!(vars.len(), 1);
    assert_eq!(vars.get("a").unwrap().len(), 4);
}

#[test]
fn discovery_stops_at_a_variable_too_large() {
    let dims = vec![dim("x", u64::MAX, 0), dim("y", 2, 1)];
    let mut vars = Catalog::new();
    let reports = vec![
        info("fine", vec![1], Vec::new()),
        info("huge", vec![0, 1], Vec::new()),
        info("late", vec![1], Vec::new()),
    ];
    assert_eq!(
        init_variables(&mut vars, 11, &dims, &reports),
        Err(AccessError::Shape(ShapeFault::TooLarge))
    );
    assert_eq!(vars.len(), 1);
    assert!(vars.get("fine").is_some());
    assert!(vars.get("huge").is_none());
    assert!(vars.get("late").is_none());
    let mut alone = Catalog::new();
    assert_eq!(
        init_variable(&mut alone, 11, &dims, 0, &reports[1]),
        Err(AccessError::Shape(ShapeFault::TooLarge))
    );
    assert_eq!(alone.len(), 0);
}

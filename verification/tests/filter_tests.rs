use garden::logic::filter::{filter_vegetables, french_rank};
use garden::models::request::{LayoutCell, Level, PlanRequest, PreferenceEntry};
use garden::models::vegetable::{
    Category, Lifecycle, Region, Season, SoilType, SunExposure, Vegetable,
};

fn entry(
    id: &str,
    name: &str,
    latin_name: &str,
    seasons: &[Season],
    sun_requirement: &[SunExposure],
    soil_types: &[SoilType],
    regions: &[Region],
    spacing_cm: u32,
    days_to_harvest: u32,
    lifecycle: Lifecycle,
    good_companions: &[&str],
    bad_companions: &[&str],
    beginner_friendly: bool,
    category: Category,
) -> Vegetable {
    Vegetable {
        id: id.to_string(),
        name: name.to_string(),
        latin_name: latin_name.to_string(),
        seasons: seasons.to_vec(),
        sun_requirement: sun_requirement.to_vec(),
        soil_types: soil_types.to_vec(),
        regions: regions.to_vec(),
        spacing_cm,
        days_to_harvest,
        lifecycle,
        good_companions: good_companions.iter().map(|c| c.to_string()).collect(),
        bad_companions: bad_companions.iter().map(|c| c.to_string()).collect(),
        beginner_friendly,
        category,
    }
}

fn get_all_vegetables() -> Vec<Vegetable> {
    vec![
        entry("tomato", "Tomato", "Solanum lycopersicum", &[Season::Summer], &[SunExposure::FullSun], &[SoilType::Loamy, SoilType::Humus], &[Region::Temperate, Region::Mediterranean, Region::Oceanic, Region::Continental], 60, 80, Lifecycle::Annual, &["basil", "carrot", "parsley", "onion"], &["fennel", "potato", "cabbage"], true, Category::Fruit),
        entry("carrot", "Carrot", "Daucus carota", &[Season::Spring, Season::Summer, Season::Autumn], &[SunExposure::FullSun, SunExposure::PartialShade], &[SoilType::Sandy, SoilType::Loamy], &[Region::Temperate, Region::Mediterranean, Region::Oceanic, Region::Continental, Region::Mountain], 10, 75, Lifecycle::Biennial, &["tomato", "leek", "onion", "lettuce", "radish", "pea"], &[], true, Category::Root),
        entry("leek", "Leek", "Allium porrum", &[Season::Autumn, Season::Winter, Season::Spring], &[SunExposure::FullSun, SunExposure::PartialShade], &[SoilType::Loamy, SoilType::Clay, SoilType::Humus], &[Region::Temperate, Region::Oceanic, Region::Continental, Region::Mountain], 15, 120, Lifecycle::Biennial, &["carrot", "celery", "strawberry"], &["pea", "green-bean"], true, Category::Bulb),
        entry("lettuce", "Lettuce", "Lactuca sativa", &[Season::Spring, Season::Summer, Season::Autumn], &[SunExposure::FullSun, SunExposure::PartialShade, SunExposure::Shade], &[SoilType::Loamy, SoilType::Humus, SoilType::Clay], &[Region::Temperate, Region::Mediterranean, Region::Oceanic, Region::Continental, Region::Mountain], 25, 50, Lifecycle::Annual, &["carrot", "radish", "strawberry", "cucumber"], &["celery", "parsley"], true, Category::Leafy),
        entry("green-bean", "Green bean", "Phaseolus vulgaris", &[Season::Summer], &[SunExposure::FullSun], &[SoilType::Loamy, SoilType::Sandy], &[Region::Temperate, Region::Mediterranean, Region::Oceanic, Region::Continental], 15, 60, Lifecycle::Annual, &["carrot", "cucumber", "potato", "cabbage"], &["onion", "garlic", "leek", "fennel"], true, Category::Pod),
        entry("zucchini", "Zucchini", "Cucurbita pepo", &[Season::Summer], &[SunExposure::FullSun], &[SoilType::Loamy, SoilType::Humus], &[Region::Temperate, Region::Mediterranean, Region::Oceanic, Region::Continental], 90, 55, Lifecycle::Annual, &["green-bean", "maïs", "pea"], &["potato", "cucumber"], true, Category::Fruit),
        entry("cucumber", "Cucumber", "Cucumis sativus", &[Season::Summer], &[SunExposure::FullSun, SunExposure::PartialShade], &[SoilType::Loamy, SoilType::Humus], &[Region::Temperate, Region::Mediterranean, Region::Oceanic], 45, 60, Lifecycle::Annual, &["green-bean", "pea", "lettuce", "radish"], &["potato", "zucchini"], true, Category::Fruit),
        entry("onion", "Onion", "Allium cepa", &[Season::Spring, Season::Summer, Season::Autumn], &[SunExposure::FullSun], &[SoilType::Sandy, SoilType::Loamy], &[Region::Temperate, Region::Mediterranean, Region::Oceanic, Region::Continental, Region::Mountain], 15, 100, Lifecycle::Biennial, &["carrot", "tomato", "beet", "lettuce", "strawberry"], &["pea", "green-bean"], true, Category::Bulb),
        entry("cabbage", "Cabbage", "Brassica oleracea var. capitata", &[Season::Autumn, Season::Winter, Season::Spring], &[SunExposure::FullSun, SunExposure::PartialShade], &[SoilType::Clay, SoilType::Loamy, SoilType::Humus], &[Region::Temperate, Region::Oceanic, Region::Continental, Region::Mountain], 50, 90, Lifecycle::Biennial, &["celery", "onion", "potato", "beet"], &["tomato", "strawberry"], true, Category::Leafy),
        entry("spinach", "Spinach", "Spinacia oleracea", &[Season::Spring, Season::Autumn, Season::Winter], &[SunExposure::FullSun, SunExposure::PartialShade, SunExposure::Shade], &[SoilType::Loamy, SoilType::Humus, SoilType::Clay], &[Region::Temperate, Region::Oceanic, Region::Continental, Region::Mountain], 15, 45, Lifecycle::Annual, &["strawberry", "pea", "radish", "cabbage"], &[], true, Category::Leafy),
        entry("pepper", "Pepper", "Capsicum annuum", &[Season::Summer], &[SunExposure::FullSun], &[SoilType::Loamy, SoilType::Sandy], &[Region::Mediterranean, Region::Temperate], 45, 90, Lifecycle::Annual, &["basil", "carrot", "onion"], &["fennel"], false, Category::Fruit),
        entry("red-pepper", "Red pepper", "Capsicum annuum var. grossum", &[Season::Summer], &[SunExposure::FullSun], &[SoilType::Loamy, SoilType::Sandy], &[Region::Mediterranean], 45, 100, Lifecycle::Annual, &["basil", "onion"], &["fennel"], false, Category::Fruit),
        entry("broccoli", "Broccoli", "Brassica oleracea var. italica", &[Season::Spring, Season::Autumn], &[SunExposure::FullSun], &[SoilType::Clay, SoilType::Loamy], &[Region::Temperate, Region::Oceanic, Region::Continental], 45, 80, Lifecycle::Annual, &["celery", "onion", "potato"], &["tomato", "strawberry"], false, Category::Produce),
        entry("eggplant", "Eggplant", "Solanum melongena", &[Season::Summer], &[SunExposure::FullSun], &[SoilType::Loamy, SoilType::Humus], &[Region::Mediterranean, Region::Temperate], 50, 100, Lifecycle::Annual, &["green-bean", "pepper", "basil"], &["fennel"], false, Category::Fruit),
        entry("cauliflower", "Cauliflower", "Brassica oleracea var. botrytis", &[Season::Spring, Season::Autumn], &[SunExposure::FullSun], &[SoilType::Clay, SoilType::Loamy, SoilType::Humus], &[Region::Temperate, Region::Oceanic], 60, 95, Lifecycle::Annual, &["celery", "spinach"], &["tomato", "strawberry"], false, Category::Produce),
        entry("pea", "Pea", "Pisum sativum", &[Season::Spring], &[SunExposure::FullSun, SunExposure::PartialShade], &[SoilType::Loamy, SoilType::Clay], &[Region::Temperate, Region::Oceanic, Region::Continental, Region::Mountain], 10, 65, Lifecycle::Annual, &["carrot", "radish", "turnip", "cucumber"], &["onion", "garlic", "leek"], true, Category::Pod),
        entry("beet", "Beet", "Beta vulgaris", &[Season::Spring, Season::Summer, Season::Autumn], &[SunExposure::FullSun, SunExposure::PartialShade], &[SoilType::Loamy, SoilType::Sandy], &[Region::Temperate, Region::Mediterranean, Region::Oceanic, Region::Continental, Region::Mountain], 20, 60, Lifecycle::Biennial, &["onion", "lettuce", "cabbage"], &["green-bean"], true, Category::Root),
        entry("radish", "Radish", "Raphanus sativus", &[Season::Spring, Season::Summer, Season::Autumn], &[SunExposure::FullSun, SunExposure::PartialShade], &[SoilType::Sandy, SoilType::Loamy], &[Region::Temperate, Region::Mediterranean, Region::Oceanic, Region::Continental, Region::Mountain], 5, 25, Lifecycle::Annual, &["carrot", "lettuce", "pea", "spinach", "cucumber"], &[], true, Category::Root),
        entry("potato", "Potato", "Solanum tuberosum", &[Season::Spring, Season::Summer], &[SunExposure::FullSun], &[SoilType::Sandy, SoilType::Loamy], &[Region::Temperate, Region::Oceanic, Region::Continental, Region::Mountain], 40, 110, Lifecycle::Annual, &["green-bean", "cabbage", "pea"], &["tomato", "cucumber", "zucchini", "pumpkin"], true, Category::Root),
        entry("garlic", "Garlic", "Allium sativum", &[Season::Autumn, Season::Winter], &[SunExposure::FullSun], &[SoilType::Sandy, SoilType::Loamy], &[Region::Temperate, Region::Mediterranean, Region::Oceanic, Region::Continental, Region::Mountain], 12, 240, Lifecycle::Annual, &["carrot", "tomato", "strawberry", "beet"], &["pea", "green-bean"], true, Category::Bulb),
        entry("pumpkin", "Pumpkin", "Cucurbita maxima", &[Season::Summer, Season::Autumn], &[SunExposure::FullSun], &[SoilType::Humus, SoilType::Loamy], &[Region::Temperate, Region::Mediterranean, Region::Continental], 100, 110, Lifecycle::Annual, &["maïs", "green-bean"], &["potato"], true, Category::Fruit),
        entry("celery", "Celery", "Apium graveolens", &[Season::Summer, Season::Autumn], &[SunExposure::FullSun, SunExposure::PartialShade], &[SoilType::Humus, SoilType::Clay], &[Region::Temperate, Region::Oceanic], 30, 120, Lifecycle::Biennial, &["leek", "cabbage", "tomato"], &["lettuce", "parsley"], false, Category::Produce),
        entry("fennel", "Fennel", "Foeniculum vulgare", &[Season::Summer, Season::Autumn], &[SunExposure::FullSun], &[SoilType::Sandy, SoilType::Loamy], &[Region::Mediterranean, Region::Temperate], 30, 90, Lifecycle::Perennial, &[], &["tomato", "green-bean", "pepper", "eggplant"], false, Category::Bulb),
        entry("turnip", "Turnip", "Brassica rapa", &[Season::Spring, Season::Autumn], &[SunExposure::FullSun, SunExposure::PartialShade], &[SoilType::Loamy, SoilType::Sandy], &[Region::Temperate, Region::Oceanic, Region::Continental, Region::Mountain], 15, 55, Lifecycle::Biennial, &["pea", "lettuce"], &[], true, Category::Root),
        entry("asparagus", "Asparagus", "Asparagus officinalis", &[Season::Spring], &[SunExposure::FullSun], &[SoilType::Sandy, SoilType::Loamy], &[Region::Temperate, Region::Oceanic], 45, 730, Lifecycle::Perennial, &["tomato", "parsley", "basil"], &["onion", "garlic"], false, Category::Produce),
        entry("artichoke", "Artichoke", "Cynara scolymus", &[Season::Summer], &[SunExposure::FullSun], &[SoilType::Loamy, SoilType::Humus], &[Region::Mediterranean, Region::Oceanic], 90, 180, Lifecycle::Perennial, &[], &[], false, Category::Produce),
        entry("strawberry", "Strawberry", "Fragaria ananassa", &[Season::Spring, Season::Summer], &[SunExposure::FullSun, SunExposure::PartialShade], &[SoilType::Loamy, SoilType::Humus, SoilType::Sandy], &[Region::Temperate, Region::Oceanic, Region::Continental, Region::Mountain], 30, 90, Lifecycle::Perennial, &["lettuce", "spinach", "onion", "garlic"], &["cabbage", "broccoli", "cauliflower"], true, Category::Fruit),
        entry("basil", "Basil", "Ocimum basilicum", &[Season::Summer], &[SunExposure::FullSun], &[SoilType::Loamy, SoilType::Humus], &[Region::Mediterranean, Region::Temperate, Region::Oceanic, Region::Continental], 20, 60, Lifecycle::Annual, &["tomato", "pepper", "eggplant"], &[], true, Category::Herb),
        entry("parsley", "Parsley", "Petroselinum crispum", &[Season::Spring, Season::Summer, Season::Autumn], &[SunExposure::FullSun, SunExposure::PartialShade], &[SoilType::Loamy, SoilType::Humus], &[Region::Temperate, Region::Mediterranean, Region::Oceanic, Region::Continental, Region::Mountain], 15, 75, Lifecycle::Biennial, &["tomato", "asparagus"], &["lettuce", "celery"], true, Category::Herb),
        entry("chive", "Chive", "Allium schoenoprasum", &[Season::Spring, Season::Summer, Season::Autumn], &[SunExposure::FullSun, SunExposure::PartialShade], &[SoilType::Loamy], &[Region::Temperate, Region::Mediterranean, Region::Oceanic, Region::Continental, Region::Mountain], 20, 80, Lifecycle::Perennial, &["carrot", "tomato"], &["pea", "green-bean"], true, Category::Herb),
        entry("mint", "Mint", "Mentha spicata", &[Season::Spring, Season::Summer, Season::Autumn], &[SunExposure::PartialShade, SunExposure::Shade], &[SoilType::Humus, SoilType::Clay, SoilType::Loamy], &[Region::Temperate, Region::Mediterranean, Region::Oceanic, Region::Continental, Region::Mountain], 30, 90, Lifecycle::Perennial, &["cabbage", "tomato"], &["parsley"], true, Category::Herb),
        entry("thyme", "Thyme", "Thymus vulgaris", &[Season::Spring, Season::Summer, Season::Autumn, Season::Winter], &[SunExposure::FullSun], &[SoilType::Sandy, SoilType::Chalky], &[Region::Mediterranean, Region::Temperate, Region::Mountain], 25, 90, Lifecycle::Perennial, &["cabbage", "eggplant", "strawberry"], &[], true, Category::Herb),
        entry("rosemary", "Rosemary", "Salvia rosmarinus", &[Season::Spring, Season::Summer, Season::Autumn, Season::Winter], &[SunExposure::FullSun], &[SoilType::Sandy, SoilType::Chalky], &[Region::Mediterranean, Region::Temperate], 60, 180, Lifecycle::Perennial, &["cabbage", "carrot"], &[], true, Category::Herb),
        entry("maïs", "Sweet corn", "Zea mays", &[Season::Summer], &[SunExposure::FullSun], &[SoilType::Loamy, SoilType::Humus], &[Region::Temperate, Region::Mediterranean, Region::Continental], 30, 85, Lifecycle::Annual, &["green-bean", "pumpkin", "zucchini", "pea"], &[], true, Category::Produce),
    ]
}

fn make_request(season: Season) -> PlanRequest {
    PlanRequest {
        // 2m × 3m → 7 cols × 10 rows
        layout: vec![vec![LayoutCell::Free(()); 7]; 10],
        season,
        sun: None,
        soil: None,
        region: None,
        level: None,
        preferences: None,
    }
}

#[test]
fn test_filter_by_season_summer() {
    let db = get_all_vegetables();
    let req = make_request(Season::Summer);
    let result = filter_vegetables(&db, &req);
    for v in &result {
        assert!(
            v.seasons.contains(&Season::Summer),
            "Vegetable {} does not grow in summer",
            v.id
        );
    }
}

#[test]
fn test_filter_by_season_excludes_wrong_season() {
    let db = get_all_vegetables();
    // Tomato only grows in summer → must be excluded in winter
    let req = make_request(Season::Winter);
    let result = filter_vegetables(&db, &req);
    assert!(
        !result.iter().any(|v| v.id == "tomato"),
        "Tomato must not appear in winter"
    );
}

#[test]
fn test_filter_by_beginner_excludes_advanced() {
    let db = get_all_vegetables();
    let req = PlanRequest {
        level: Some(Level::Beginner),
        ..make_request(Season::Summer)
    };
    let result = filter_vegetables(&db, &req);
    for v in &result {
        assert!(
            v.beginner_friendly,
            "Vegetable {} is not beginner-friendly",
            v.id
        );
    }
}

#[test]
fn test_filter_preferences_boost() {
    let db = get_all_vegetables();
    let req = PlanRequest {
        preferences: Some(vec![PreferenceEntry {
            id: "basil".into(),
            quantity: None,
        }]),
        ..make_request(Season::Summer)
    };
    let result = filter_vegetables(&db, &req);
    if let Some(first) = result.first() {
        assert_eq!(first.id, "basil", "Basil (preferred) must be first");
    }
}

#[test]
fn test_filter_by_soil() {
    let db = get_all_vegetables();
    let req = PlanRequest {
        soil: Some(SoilType::Sandy),
        ..make_request(Season::Spring)
    };
    let result = filter_vegetables(&db, &req);
    for v in &result {
        assert!(
            v.soil_types.contains(&SoilType::Sandy),
            "Vegetable {} is not suited for sandy soil",
            v.id
        );
    }
}

#[test]
fn test_filter_by_sun() {
    let db = get_all_vegetables();
    let req = PlanRequest {
        sun: Some(SunExposure::Shade),
        ..make_request(Season::Spring)
    };
    let result = filter_vegetables(&db, &req);
    for v in &result {
        assert!(
            v.sun_requirement.contains(&SunExposure::Shade),
            "Vegetable {} does not tolerate shade",
            v.id
        );
    }
}

#[test]
fn test_filter_by_region() {
    let db = get_all_vegetables();
    let req = PlanRequest {
        region: Some(Region::Mountain),
        ..make_request(Season::Spring)
    };
    let result = filter_vegetables(&db, &req);
    for v in &result {
        assert!(
            v.regions.contains(&Region::Mountain),
            "Vegetable {} is not suited for mountain region",
            v.id
        );
    }
}

#[test]
fn test_filter_empty_result_incompatible_constraints() {
    let db = get_all_vegetables();
    // Shade + summer + chalky soil + mountain + beginner → very few vegetables
    let req = PlanRequest {
        sun: Some(SunExposure::Shade),
        soil: Some(SoilType::Chalky),
        region: Some(Region::Mountain),
        level: Some(Level::Beginner),
        ..make_request(Season::Summer)
    };
    let result = filter_vegetables(&db, &req);
    for v in &result {
        assert!(v.seasons.contains(&Season::Summer));
        assert!(v.sun_requirement.contains(&SunExposure::Shade));
        assert!(v.soil_types.contains(&SoilType::Chalky));
        assert!(v.regions.contains(&Region::Mountain));
        assert!(v.beginner_friendly);
    }
}

#[test]
fn test_french_rank_known() {
    assert_eq!(french_rank("tomato"), 1);
    assert_eq!(french_rank("maïs"), 34);
}

#[test]
fn test_french_rank_unknown() {
    assert_eq!(french_rank("dragon"), 999);
}

#[test]
fn test_sort_uses_french_rank_for_non_preferences() {
    let db = get_all_vegetables();
    // No preferences — summer candidates should be ordered by French rank.
    // Tomato (rank 1) must appear before carrot (rank 2).
    let req = make_request(Season::Summer);
    let result = filter_vegetables(&db, &req);
    let tomato_pos = result.iter().position(|v| v.id == "tomato");
    let carrot_pos = result.iter().position(|v| v.id == "carrot");
    if let (Some(tp), Some(cp)) = (tomato_pos, carrot_pos) {
        assert!(
            tp < cp,
            "Tomato (rank 1) must appear before carrot (rank 2); got positions {tp} vs {cp}"
        );
    }
}

fn ids(list: &[Vegetable]) -> Vec<String> {
    list.iter().map(|v| v.id.clone()).collect()
}

#[test]
fn french_rank_of_every_listed_identifier() {
    let table = [
        "tomato", "carrot", "leek", "lettuce", "green-bean", "zucchini", "cucumber", "onion",
        "cabbage", "spinach", "pepper", "red-pepper", "broccoli", "eggplant", "cauliflower",
        "pea", "beet", "radish", "potato", "garlic", "pumpkin", "celery", "fennel", "turnip",
        "asparagus", "artichoke", "strawberry", "basil", "parsley", "chive", "mint", "thyme",
        "rosemary", "maïs",
    ];
    for (i, id) in table.iter().enumerate() {
        assert_eq!(french_rank(id), i + 1);
    }
    assert_eq!(french_rank(""), 999);
    assert_eq!(french_rank("Tomato"), 999);
    assert_eq!(french_rank("tomat"), 999);
}

#[test]
fn winter_candidates_in_rank_order() {
    let db = get_all_vegetables();
    let result = filter_vegetables(&db, &make_request(Season::Winter));
    assert_eq!(
        ids(&result),
        vec!["leek", "cabbage", "spinach", "garlic", "thyme", "rosemary"]
    );
}

#[test]
fn preferences_come_first_in_preference_order() {
    let db = get_all_vegetables();
    let req = PlanRequest {
        preferences: Some(vec![
            PreferenceEntry { id: "rosemary".into(), quantity: None },
            PreferenceEntry { id: "tomato".into(), quantity: Some(2) },
            PreferenceEntry { id: "garlic".into(), quantity: None },
            PreferenceEntry { id: "rosemary".into(), quantity: Some(1) },
        ]),
        ..make_request(Season::Winter)
    };
    // tomato does not grow in winter: a preference cannot bring it back.
    assert_eq!(
        ids(&filter_vegetables(&db, &req)),
        vec!["rosemary", "garlic", "leek", "cabbage", "spinach", "thyme"]
    );
}

#[test]
fn unknown_identifiers_rank_last_in_catalogue_order() {
    let mut db = Vec::new();
    let base = get_all_vegetables();
    let mut quinoa = base[0].clone();
    quinoa.id = "quinoa".into();
    let mut amaranth = base[0].clone();
    amaranth.id = "amaranth".into();
    db.push(quinoa);
    db.push(base[33].clone());
    db.push(amaranth);
    db.push(base[0].clone());
    let result = filter_vegetables(&db, &make_request(Season::Summer));
    assert_eq!(ids(&result), vec!["tomato", "maïs", "quinoa", "amaranth"]);
}

#[test]
fn beginner_filter_applies_only_to_beginners() {
    let db = get_all_vegetables();
    let expert = PlanRequest { level: Some(Level::Expert), ..make_request(Season::Summer) };
    let nobody = make_request(Season::Summer);
    let beginner = PlanRequest { level: Some(Level::Beginner), ..make_request(Season::Summer) };
    assert_eq!(ids(&filter_vegetables(&db, &expert)), ids(&filter_vegetables(&db, &nobody)));
    assert!(ids(&filter_vegetables(&db, &expert)).contains(&"fennel".to_string()));
    assert!(!ids(&filter_vegetables(&db, &beginner)).contains(&"fennel".to_string()));
}

#[test]
fn all_constraints_together() {
    let db = get_all_vegetables();
    let req = PlanRequest {
        sun: Some(SunExposure::FullSun),
        soil: Some(SoilType::Chalky),
        region: Some(Region::Mountain),
        level: Some(Level::Beginner),
        ..make_request(Season::Summer)
    };
    assert_eq!(ids(&filter_vegetables(&db, &req)), vec!["thyme"]);
    let none = PlanRequest { sun: Some(SunExposure::Shade), ..req };
    assert!(filter_vegetables(&db, &none).is_empty());
}

#[test]
fn empty_catalogue_gives_no_candidates() {
    assert!(filter_vegetables(&[], &make_request(Season::Summer)).is_empty());
}

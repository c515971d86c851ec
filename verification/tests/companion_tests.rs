use garden::logic::companion::{
    companion_score, is_compatible, BAD_COMPANION_SCORE, GOOD_COMPANION_SCORE,
};
use garden::models::vegetable::{
    find_by_id, Category, Lifecycle, Region, Season, SoilType, SunExposure, Vegetable,
};

fn entry(
    id: &str,
    name: &str,
    latin_name: &str,
    seasons: &[Season],
    sun_requirement: &[SunExposure],
    soil_types: &[SoilType],
    regions: &[Region],
    spacing_cm: u32,
    days_to_harvest: u32,
    lifecycle: Lifecycle,
    good_companions: &[&str],
    bad_companions: &[&str],
    beginner_friendly: bool,
    category: Category,
) -> Vegetable {
    Vegetable {
        id: id.to_string(),
        name: name.to_string(),
        latin_name: latin_name.to_string(),
        seasons: seasons.to_vec(),
        sun_requirement: sun_requirement.to_vec(),
        soil_types: soil_types.to_vec(),
        regions: regions.to_vec(),
        spacing_cm,
        days_to_harvest,
        lifecycle,
        good_companions: good_companions.iter().map(|c| c.to_string()).collect(),
        bad_companions: bad_companions.iter().map(|c| c.to_string()).collect(),
        beginner_friendly,
        category,
    }
}

fn get_all_vegetables() -> Vec<Vegetable> {
    vec![
        entry("tomato", "Tomato", "Solanum lycopersicum", &[Season::Summer], &[SunExposure::FullSun], &[SoilType::Loamy, SoilType::Humus], &[Region::Temperate, Region::Mediterranean, Region::Oceanic, Region::Continental], 60, 80, Lifecycle::Annual, &["basil", "carrot", "parsley", "onion"], &["fennel", "potato", "cabbage"], true, Category::Fruit),
        entry("carrot", "Carrot", "Daucus carota", &[Season::Spring, Season::Summer, Season::Autumn], &[SunExposure::FullSun, SunExposure::PartialShade], &[SoilType::Sandy, SoilType::Loamy], &[Region::Temperate, Region::Mediterranean, Region::Oceanic, Region::Continental, Region::Mountain], 10, 75, Lifecycle::Biennial, &["tomato", "leek", "onion", "lettuce", "radish", "pea"], &[], true, Category::Root),
        entry("leek", "Leek", "Allium porrum", &[Season::Autumn, Season::Winter, Season::Spring], &[SunExposure::FullSun, SunExposure::PartialShade], &[SoilType::Loamy, SoilType::Clay, SoilType::Humus], &[Region::Temperate, Region::Oceanic, Region::Continental, Region::Mountain], 15, 120, Lifecycle::Biennial, &["carrot", "celery", "strawberry"], &["pea", "green-bean"], true, Category::Bulb),
        entry("lettuce", "Lettuce", "Lactuca sativa", &[Season::Spring, Season::Summer, Season::Autumn], &[SunExposure::FullSun, SunExposure::PartialShade, SunExposure::Shade], &[SoilType::Loamy, SoilType::Humus, SoilType::Clay], &[Region::Temperate, Region::Mediterranean, Region::Oceanic, Region::Continental, Region::Mountain], 25, 50, Lifecycle::Annual, &["carrot", "radish", "strawberry", "cucumber"], &["celery", "parsley"], true, Category::Leafy),
        entry("green-bean", "Green bean", "Phaseolus vulgaris", &[Season::Summer], &[SunExposure::FullSun], &[SoilType::Loamy, SoilType::Sandy], &[Region::Temperate, Region::Mediterranean, Region::Oceanic, Region::Continental], 15, 60, Lifecycle::Annual, &["carrot", "cucumber", "potato", "cabbage"], &["onion", "garlic", "leek", "fennel"], true, Category::Pod),
        entry("zucchini", "Zucchini", "Cucurbita pepo", &[Season::Summer], &[SunExposure::FullSun], &[SoilType::Loamy, SoilType::Humus], &[Region::Temperate, Region::Mediterranean, Region::Oceanic, Region::Continental], 90, 55, Lifecycle::Annual, &["green-bean", "maïs", "pea"], &["potato", "cucumber"], true, Category::Fruit),
        entry("cucumber", "Cucumber", "Cucumis sativus", &[Season::Summer], &[SunExposure::FullSun, SunExposure::PartialShade], &[SoilType::Loamy, SoilType::Humus], &[Region::Temperate, Region::Mediterranean, Region::Oceanic], 45, 60, Lifecycle::Annual, &["green-bean", "pea", "lettuce", "radish"], &["potato", "zucchini"], true, Category::Fruit),
        entry("onion", "Onion", "Allium cepa", &[Season::Spring, Season::Summer, Season::Autumn], &[SunExposure::FullSun], &[SoilType::Sandy, SoilType::Loamy], &[Region::Temperate, Region::Mediterranean, Region::Oceanic, Region::Continental, Region::Mountain], 15, 100, Lifecycle::Biennial, &["carrot", "tomato", "beet", "lettuce", "strawberry"], &["pea", "green-bean"], true, Category::Bulb),
        entry("cabbage", "Cabbage", "Brassica oleracea var. capitata", &[Season::Autumn, Season::Winter, Season::Spring], &[SunExposure::FullSun, SunExposure::PartialShade], &[SoilType::Clay, SoilType::Loamy, SoilType::Humus], &[Region::Temperate, Region::Oceanic, Region::Continental, Region::Mountain], 50, 90, Lifecycle::Biennial, &["celery", "onion", "potato", "beet"], &["tomato", "strawberry"], true, Category::Leafy),
        entry("spinach", "Spinach", "Spinacia oleracea", &[Season::Spring, Season::Autumn, Season::Winter], &[SunExposure::FullSun, SunExposure::PartialShade, SunExposure::Shade], &[SoilType::Loamy, SoilType::Humus, SoilType::Clay], &[Region::Temperate, Region::Oceanic, Region::Continental, Region::Mountain], 15, 45, Lifecycle::Annual, &["strawberry", "pea", "radish", "cabbage"], &[], true, Category::Leafy),
        entry("pepper", "Pepper", "Capsicum annuum", &[Season::Summer], &[SunExposure::FullSun], &[SoilType::Loamy, SoilType::Sandy], &[Region::Mediterranean, Region::Temperate], 45, 90, Lifecycle::Annual, &["basil", "carrot", "onion"], &["fennel"], false, Category::Fruit),
        entry("red-pepper", "Red pepper", "Capsicum annuum var. grossum", &[Season::Summer], &[SunExposure::FullSun], &[SoilType::Loamy, SoilType::Sandy], &[Region::Mediterranean], 45, 100, Lifecycle::Annual, &["basil", "onion"], &["fennel"], false, Category::Fruit),
        entry("broccoli", "Broccoli", "Brassica oleracea var. italica", &[Season::Spring, Season::Autumn], &[SunExposure::FullSun], &[SoilType::Clay, SoilType::Loamy], &[Region::Temperate, Region::Oceanic, Region::Continental], 45, 80, Lifecycle::Annual, &["celery", "onion", "potato"], &["tomato", "strawberry"], false, Category::Produce),
        entry("eggplant", "Eggplant", "Solanum melongena", &[Season::Summer], &[SunExposure::FullSun], &[SoilType::Loamy, SoilType::Humus], &[Region::Mediterranean, Region::Temperate], 50, 100, Lifecycle::Annual, &["green-bean", "pepper", "basil"], &["fennel"], false, Category::Fruit),
        entry("cauliflower", "Cauliflower", "Brassica oleracea var. botrytis", &[Season::Spring, Season::Autumn], &[SunExposure::FullSun], &[SoilType::Clay, SoilType::Loamy, SoilType::Humus], &[Region::Temperate, Region::Oceanic], 60, 95, Lifecycle::Annual, &["celery", "spinach"], &["tomato", "strawberry"], false, Category::Produce),
        entry("pea", "Pea", "Pisum sativum", &[Season::Spring], &[SunExposure::FullSun, SunExposure::PartialShade], &[SoilType::Loamy, SoilType::Clay], &[Region::Temperate, Region::Oceanic, Region::Continental, Region::Mountain], 10, 65, Lifecycle::Annual, &["carrot", "radish", "turnip", "cucumber"], &["onion", "garlic", "leek"], true, Category::Pod),
        entry("beet", "Beet", "Beta vulgaris", &[Season::Spring, Season::Summer, Season::Autumn], &[SunExposure::FullSun, SunExposure::PartialShade], &[SoilType::Loamy, SoilType::Sandy], &[Region::Temperate, Region::Mediterranean, Region::Oceanic, Region::Continental, Region::Mountain], 20, 60, Lifecycle::Biennial, &["onion", "lettuce", "cabbage"], &["green-bean"], true, Category::Root),
        entry("radish", "Radish", "Raphanus sativus", &[Season::Spring, Season::Summer, Season::Autumn], &[SunExposure::FullSun, SunExposure::PartialShade], &[SoilType::Sandy, SoilType::Loamy], &[Region::Temperate, Region::Mediterranean, Region::Oceanic, Region::Continental, Region::Mountain], 5, 25, Lifecycle::Annual, &["carrot", "lettuce", "pea", "spinach", "cucumber"], &[], true, Category::Root),
        entry("potato", "Potato", "Solanum tuberosum", &[Season::Spring, Season::Summer], &[SunExposure::FullSun], &[SoilType::Sandy, SoilType::Loamy], &[Region::Temperate, Region::Oceanic, Region::Continental, Region::Mountain], 40, 110, Lifecycle::Annual, &["green-bean", "cabbage", "pea"], &["tomato", "cucumber", "zucchini", "pumpkin"], true, Category::Root),
        entry("garlic", "Garlic", "Allium sativum", &[Season::Autumn, Season::Winter], &[SunExposure::FullSun], &[SoilType::Sandy, SoilType::Loamy], &[Region::Temperate, Region::Mediterranean, Region::Oceanic, Region::Continental, Region::Mountain], 12, 240, Lifecycle::Annual, &["carrot", "tomato", "strawberry", "beet"], &["pea", "green-bean"], true, Category::Bulb),
        entry("pumpkin", "Pumpkin", "Cucurbita maxima", &[Season::Summer, Season::Autumn], &[SunExposure::FullSun], &[SoilType::Humus, SoilType::Loamy], &[Region::Temperate, Region::Mediterranean, Region::Continental], 100, 110, Lifecycle::Annual, &["maïs", "green-bean"], &["potato"], true, Category::Fruit),
        entry("celery", "Celery", "Apium graveolens", &[Season::Summer, Season::Autumn], &[SunExposure::FullSun, SunExposure::PartialShade], &[SoilType::Humus, SoilType::Clay], &[Region::Temperate, Region::Oceanic], 30, 120, Lifecycle::Biennial, &["leek", "cabbage", "tomato"], &["lettuce", "parsley"], false, Category::Produce),
        entry("fennel", "Fennel", "Foeniculum vulgare", &[Season::Summer, Season::Autumn], &[SunExposure::FullSun], &[SoilType::Sandy, SoilType::Loamy], &[Region::Mediterranean, Region::Temperate], 30, 90, Lifecycle::Perennial, &[], &["tomato", "green-bean", "pepper", "eggplant"], false, Category::Bulb),
        entry("turnip", "Turnip", "Brassica rapa", &[Season::Spring, Season::Autumn], &[SunExposure::FullSun, SunExposure::PartialShade], &[SoilType::Loamy, SoilType::Sandy], &[Region::Temperate, Region::Oceanic, Region::Continental, Region::Mountain], 15, 55, Lifecycle::Biennial, &["pea", "lettuce"], &[], true, Category::Root),
        entry("asparagus", "Asparagus", "Asparagus officinalis", &[Season::Spring], &[SunExposure::FullSun], &[SoilType::Sandy, SoilType::Loamy], &[Region::Temperate, Region::Oceanic], 45, 730, Lifecycle::Perennial, &["tomato", "parsley", "basil"], &["onion", "garlic"], false, Category::Produce),
        entry("artichoke", "Artichoke", "Cynara scolymus", &[Season::Summer], &[SunExposure::FullSun], &[SoilType::Loamy, SoilType::Humus], &[Region::Mediterranean, Region::Oceanic], 90, 180, Lifecycle::Perennial, &[], &[], false, Category::Produce),
        entry("strawberry", "Strawberry", "Fragaria ananassa", &[Season::Spring, Season::Summer], &[SunExposure::FullSun, SunExposure::PartialShade], &[SoilType::Loamy, SoilType::Humus, SoilType::Sandy], &[Region::Temperate, Region::Oceanic, Region::Continental, Region::Mountain], 30, 90, Lifecycle::Perennial, &["lettuce", "spinach", "onion", "garlic"], &["cabbage", "broccoli", "cauliflower"], true, Category::Fruit),
        entry("basil", "Basil", "Ocimum basilicum", &[Season::Summer], &[SunExposure::FullSun], &[SoilType::Loamy, SoilType::Humus], &[Region::Mediterranean, Region::Temperate, Region::Oceanic, Region::Continental], 20, 60, Lifecycle::Annual, &["tomato", "pepper", "eggplant"], &[], true, Category::Herb),
        entry("parsley", "Parsley", "Petroselinum crispum", &[Season::Spring, Season::Summer, Season::Autumn], &[SunExposure::FullSun, SunExposure::PartialShade], &[SoilType::Loamy, SoilType::Humus], &[Region::Temperate, Region::Mediterranean, Region::Oceanic, Region::Continental, Region::Mountain], 15, 75, Lifecycle::Biennial, &["tomato", "asparagus"], &["lettuce", "celery"], true, Category::Herb),
        entry("chive", "Chive", "Allium schoenoprasum", &[Season::Spring, Season::Summer, Season::Autumn], &[SunExposure::FullSun, SunExposure::PartialShade], &[SoilType::Loamy], &[Region::Temperate, Region::Mediterranean, Region::Oceanic, Region::Continental, Region::Mountain], 20, 80, Lifecycle::Perennial, &["carrot", "tomato"], &["pea", "green-bean"], true, Category::Herb),
        entry("mint", "Mint", "Mentha spicata", &[Season::Spring, Season::Summer, Season::Autumn], &[SunExposure::PartialShade, SunExposure::Shade], &[SoilType::Humus, SoilType::Clay, SoilType::Loamy], &[Region::Temperate, Region::Mediterranean, Region::Oceanic, Region::Continental, Region::Mountain], 30, 90, Lifecycle::Perennial, &["cabbage", "tomato"], &["parsley"], true, Category::Herb),
        entry("thyme", "Thyme", "Thymus vulgaris", &[Season::Spring, Season::Summer, Season::Autumn, Season::Winter], &[SunExposure::FullSun], &[SoilType::Sandy, SoilType::Chalky], &[Region::Mediterranean, Region::Temperate, Region::Mountain], 25, 90, Lifecycle::Perennial, &["cabbage", "eggplant", "strawberry"], &[], true, Category::Herb),
        entry("rosemary", "Rosemary", "Salvia rosmarinus", &[Season::Spring, Season::Summer, Season::Autumn, Season::Winter], &[SunExposure::FullSun], &[SoilType::Sandy, SoilType::Chalky], &[Region::Mediterranean, Region::Temperate], 60, 180, Lifecycle::Perennial, &["cabbage", "carrot"], &[], true, Category::Herb),
        entry("maïs", "Sweet corn", "Zea mays", &[Season::Summer], &[SunExposure::FullSun], &[SoilType::Loamy, SoilType::Humus], &[Region::Temperate, Region::Mediterranean, Region::Continental], 30, 85, Lifecycle::Annual, &["green-bean", "pumpkin", "zucchini", "pea"], &[], true, Category::Produce),
    ]
}

fn get_vegetable_by_id(id: &str) -> Option<Vegetable> {
    find_by_id(&get_all_vegetables(), id).cloned()
}

fn get(id: &str) -> Vegetable {
    get_vegetable_by_id(id).unwrap_or_else(|| panic!("Vegetable '{}' not found", id))
}

#[test]
fn test_good_companion_positive_score() {
    let tomato = get("tomato");
    // basil is a good companion of tomato
    let score = companion_score(&tomato, &["basil"]);
    assert_eq!(
        score, GOOD_COMPANION_SCORE,
        "Tomato + basil must give a positive score"
    );
}

#[test]
fn test_bad_companion_negative_score() {
    let tomato = get("tomato");
    // fennel is a bad companion of tomato
    let score = companion_score(&tomato, &["fennel"]);
    assert_eq!(
        score, BAD_COMPANION_SCORE,
        "Tomato + fennel must give a negative score"
    );
}

#[test]
fn test_neutral_companion_score_zero() {
    let lettuce = get("lettuce");
    // thyme is neither good nor bad for lettuce
    let score = companion_score(&lettuce, &["thyme"]);
    assert_eq!(score, 0, "Neutral vegetables must give a score of 0");
}

#[test]
fn test_multiple_neighbors_cumulative() {
    let tomato = get("tomato");
    // basil (+2) + carrot (+2) + fennel (-3) = 1
    let score = companion_score(&tomato, &["basil", "carrot", "fennel"]);
    assert_eq!(score, 1);
}

#[test]
fn test_no_neighbors_score_zero() {
    let tomato = get("tomato");
    let score = companion_score(&tomato, &[]);
    assert_eq!(score, 0);
}

#[test]
fn test_is_compatible_good_pair() {
    let tomato = get("tomato");
    let basil = get("basil");
    // Tomato and basil are good companions → compatible
    assert!(is_compatible(&tomato, &basil));
}

#[test]
fn test_is_compatible_bad_pair() {
    let tomato = get("tomato");
    let fennel = get("fennel");
    // Tomato + fennel → incompatible
    assert!(!is_compatible(&tomato, &fennel));
}

#[test]
fn test_is_compatible_symmetric() {
    let tomato = get("tomato");
    let fennel = get("fennel");
    assert_eq!(
        is_compatible(&tomato, &fennel),
        is_compatible(&fennel, &tomato),
        "Compatibility must be symmetric"
    );
}

#[test]
fn test_is_compatible_neutral_pair() {
    let lettuce = get("lettuce");
    let radish = get("radish");
    // Lettuce and radish → compatible (good companions)
    assert!(is_compatible(&lettuce, &radish));
}

#[test]
fn neighbor_on_both_lists_counts_both_ways() {
    let mut plant = get("tomato");
    plant.bad_companions.push("basil".to_string());
    assert_eq!(companion_score(&plant, &["basil"]), 2 - 3);
    assert_eq!(companion_score(&plant, &["basil", "basil"]), -2);
}

#[test]
fn score_does_not_depend_on_neighbor_order() {
    let tomato = get("tomato");
    let one = companion_score(&tomato, &["basil", "fennel", "carrot", "thyme"]);
    let other = companion_score(&tomato, &["thyme", "carrot", "fennel", "basil"]);
    assert_eq!(one, 1);
    assert_eq!(one, other);
}

#[test]
fn score_adds_up_over_groups_of_neighbors() {
    let tomato = get("tomato");
    let whole = companion_score(&tomato, &["basil", "fennel", "potato", "onion"]);
    let first = companion_score(&tomato, &["basil", "fennel"]);
    let second = companion_score(&tomato, &["potato", "onion"]);
    assert_eq!(first, -1);
    assert_eq!(second, -1);
    assert_eq!(whole, first + second);
}

#[test]
fn compatibility_reads_both_directions() {
    // cabbage lists tomato as bad and tomato lists cabbage; basil lists nobody.
    let mut one_sided = get("basil");
    one_sided.bad_companions.push("carrot".to_string());
    let carrot = get("carrot");
    assert!(!is_compatible(&one_sided, &carrot));
    assert!(!is_compatible(&carrot, &one_sided));
    assert!(is_compatible(&carrot, &get("tomato")));
}

#[test]
fn dangling_companion_reference_never_matches() {
    let mut plant = get("basil");
    plant.good_companions.push("unicorn-root".to_string());
    assert_eq!(companion_score(&plant, &["tomato", "carrot"]), 2);
    assert_eq!(companion_score(&plant, &["unicorn-root"]), 2);
    assert_eq!(companion_score(&plant, &["unicorn"]), 0);
}

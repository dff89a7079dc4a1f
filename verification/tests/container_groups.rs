use minehouse::container_groups::group_containers;
use minehouse::regions::{ContainerRegion, RegionType};

fn region(id: u128, region_type: RegionType, priority: i32) -> ContainerRegion<()> {
    ContainerRegion { id, region_type, priority, world_region: () }
}

#[test]
fn containers_are_grouped_by_region_highest_priority_first() {
    let regions = vec![region(1, RegionType::Bulk, 5), region(2, RegionType::Putaway, 9), region(3, RegionType::Bulk, 5)];
    let containers = vec![(3, "c1"), (1, "a1"), (7, "x1"), (3, "c2"), (2, "b1"), (9, "y1"), (1, "a2")];
    let groups = group_containers(&regions, containers);
    let ids: Vec<u128> = groups.iter().map(|group| group.region_id).collect();
    assert_eq!(ids, vec![2, 1, 3, 7, 9]);
    assert_eq!(groups[1].containers, vec!["a1", "a2"]);
    assert_eq!(groups[2].containers, vec!["c1", "c2"]);
    assert_eq!(groups[0].region_type, Some(RegionType::Putaway));
    assert_eq!(groups[0].priority, Some(9));
    assert_eq!(groups[3].region_type, None);
    assert_eq!(groups[3].priority, None);
}

#[test]
fn later_region_record_describes_its_group() {
    let regions = vec![region(1, RegionType::Bulk, 5), region(1, RegionType::Putaway, 2)];
    let groups = group_containers(&regions, vec![(1, 10u8)]);
    assert_eq!(groups.len(), 1);
    assert_eq!(groups[0].region_type, Some(RegionType::Putaway));
    assert_eq!(groups[0].priority, Some(2));
}

#[test]
fn region_ids_of_a_type_keep_their_order() {
    let regions = vec![region(5, RegionType::Bulk, 1), region(6, RegionType::Processing, 1), region(2, RegionType::Bulk, 9)];
    assert_eq!(minehouse::regions::region_ids_of_type(&regions, RegionType::Bulk), vec![5, 2]);
    assert!(minehouse::regions::region_ids_of_type(&regions, RegionType::Putaway).is_empty());
}

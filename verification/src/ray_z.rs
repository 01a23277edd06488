use vstd::prelude::*;
use std::ops::Add;
use crate::ray::Ray2;

verus! {

/// A ray segment over a height map: a planar ray with a height `z` that changes linearly along it.
#[derive(Debug, Copy, Clone, PartialEq)]
pub struct RayZ<T> {
    pub start_x: T,
    pub start_y: T,
    pub start_z: T,
    pub diff_x: T,
    pub diff_y: T,
    pub diff_z: T,
}

impl<T: Copy + Add<Output = T>> RayZ<T> {
    /// The x-coordinate of the end point, `start_x + diff_x`.
    pub fn end_x(&self) -> (end: T)
        requires
            <T as vstd::std_specs::ops::AddSpec>::add_req(self.start_x, self.diff_x),
        ensures
            <T as vstd::std_specs::ops::AddSpec>::obeys_add_spec() ==> end == <T as vstd::std_specs::ops::AddSpec>::add_spec(self.start_x, self.diff_x),
    {
        self.start_x + self.diff_x
    }

    /// The y-coordinate of the end point, `start_y + diff_y`.
    pub fn end_y(&self) -> (end: T)
        requires
            <T as vstd::std_specs::ops::AddSpec>::add_req(self.start_y, self.diff_y),
        ensures
            <T as vstd::std_specs::ops::AddSpec>::obeys_add_spec() ==> end == <T as vstd::std_specs::ops::AddSpec>::add_spec(self.start_y, self.diff_y),
    {
        self.start_y + self.diff_y
    }

    /// The z-coordinate of the end point, `start_z + diff_z`.
    pub fn end_z(&self) -> (end: T)
        requires
            <T as vstd::std_specs::ops::AddSpec>::add_req(self.start_z, self.diff_z),
        ensures
            <T as vstd::std_specs::ops::AddSpec>::obeys_add_spec() ==> end == <T as vstd::std_specs::ops::AddSpec>::add_spec(self.start_z, self.diff_z),
    {
        self.start_z + self.diff_z
    }

    /// The planar ray under this one.
    pub fn as_ray(&self) -> (ray: Ray2<T>)
        ensures
            ray == (Ray2 {
                start_x: self.start_x,
                start_y: self.start_y,
                diff_x: self.diff_x,
                diff_y: self.diff_y,
            }),
    {
        Ray2 {
            start_x: self.start_x,
            start_y: self.start_y,
            diff_x: self.diff_x,
            diff_y: self.diff_y,
        }
    }
}

} // verus!

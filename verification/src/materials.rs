pub mod lambertian;
pub mod metal;
